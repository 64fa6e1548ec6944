//! Projection of process snapshots into the rows of the process view:
//! filtering, grouping and sorting.
use vstd::prelude::*;
use std::collections::HashMap;
use vstd::std_specs::hash::spec_hash_map_iter;
use vstd::std_specs::iter::IteratorSpec;
use crate::system::model::{ProcessSnapshot, RowSpec, SortMode, ViewMode, ViewRow};
use crate::text::{contains_chars, contains_seq, to_chars};

verus! {

broadcast use vstd::std_specs::hash::group_hash_axioms;

/// The process passes the filter: there is none, or its name contains the
/// query.
pub open spec fn passes(p: ProcessSnapshot, query: Option<Seq<char>>) -> bool {
    match query {
        None => true,
        Some(q) => contains_seq(p.name@, q),
    }
}

/// The process is in the map and passes the filter.
pub open spec fn listed(snaps: Map<u32, ProcessSnapshot>, query: Option<Seq<char>>, k: u32) -> bool {
    snaps.contains_key(k) && passes(snaps[k], query)
}

/// The value a process is sorted by.
pub open spec fn sort_key(p: ProcessSnapshot, mode: SortMode) -> u128 {
    match mode {
        SortMode::Cpu => p.cpu_usage as u128,
        SortMode::Memory => p.memory_kb as u128,
    }
}

/// The keys in order of a non-increasing sort key.
pub open spec fn sorted_keys(snaps: Map<u32, ProcessSnapshot>, mode: SortMode, ks: Seq<u32>) -> bool {
    forall|i: int, j: int|
        0 <= i < j < ks.len() ==> sort_key(snaps[#[trigger] ks[i]], mode) >= sort_key(
            snaps[#[trigger] ks[j]],
            mode,
        )
}

/// `order` lists every process that passes the filter exactly once, highest
/// sort key first.
pub open spec fn is_listing(
    snaps: Map<u32, ProcessSnapshot>,
    query: Option<Seq<char>>,
    mode: SortMode,
    order: Seq<u32>,
) -> bool {
    &&& order.no_duplicates()
    &&& forall|k: u32| #[trigger] order.contains(k) <==> listed(snaps, query, k)
    &&& sorted_keys(snaps, mode, order)
}

/// The rows of the flat view for a listing.
pub open spec fn flat_rows(snaps: Map<u32, ProcessSnapshot>, order: Seq<u32>) -> Seq<RowSpec> {
    order.map_values(|k: u32| RowSpec::Process(snaps[k].pid, 0))
}

/// The query as characters.
pub open spec fn query_view(filter_query: Option<&str>) -> Option<Seq<char>> {
    match filter_query {
        Some(q) => Some(q@),
        None => None,
    }
}

pub open spec fn sorted_desc(ws: Seq<u128>) -> bool {
    forall|i: int, j: int| 0 <= i < j < ws.len() ==> #[trigger] ws[i] >= #[trigger] ws[j]
}

proof fn lemma_insert_contains<A>(s: Seq<A>, pos: int, e: A, x: A)
    requires
        0 <= pos <= s.len(),
    ensures
        s.insert(pos, e).contains(x) <==> (x == e || s.contains(x)),
{
    s.insert_ensures(pos, e);
    let r = s.insert(pos, e);
    if s.contains(x) {
        let i = choose|i: int| 0 <= i < s.len() && s[i] == x;
        if i < pos {
            assert(r[i] == x);
        } else {
            assert(r[i + 1] == x);
        }
    }
    if x == e {
        assert(r[pos] == x);
    }
    if r.contains(x) {
        let i = choose|i: int| 0 <= i < r.len() && r[i] == x;
        if i < pos {
            assert(s[i] == x);
        } else if i > pos {
            assert(s[i - 1] == x);
        }
    }
}

/// Inserts `id` with weight `w` into the parallel vectors, after every entry
/// of weight at least `w`, keeping the weights non-increasing.
fn insert_desc<T>(ids: &mut Vec<T>, ws: &mut Vec<u128>, id: T, w: u128) -> (pos: usize)
    requires
        old(ids)@.len() == old(ws)@.len(),
        sorted_desc(old(ws)@),
    ensures
        pos <= old(ids)@.len(),
        final(ids)@ == old(ids)@.insert(pos as int, id),
        final(ws)@ == old(ws)@.insert(pos as int, w),
        sorted_desc(final(ws)@),
        forall|i: int| 0 <= i < pos ==> old(ws)@[i] >= w,
        forall|i: int| pos <= i < old(ws)@.len() ==> old(ws)@[i] < w,
{
    let mut pos: usize = 0;
    while pos < ws.len() && ws[pos] >= w
        invariant
            pos <= ws@.len(),
            forall|i: int| 0 <= i < pos ==> ws@[i] >= w,
        decreases ws@.len() - pos,
    {
        pos += 1;
    }
    let ghost old_ws = ws@;
    proof {
        assert forall|i: int| pos <= i < old_ws.len() implies old_ws[i] < w by {
            if i > pos {
                assert(old_ws[pos as int] >= old_ws[i]);
            }
        }
    }
    ids.insert(pos, id);
    ws.insert(pos, w);
    proof {
        old_ws.insert_ensures(pos as int, w);
        let n = ws@;
        assert forall|i: int, j: int| 0 <= i < j < n.len() implies #[trigger] n[i] >= #[trigger] n[j] by {
            let oi = if i < pos { i } else if i == pos { -1 } else { i - 1 };
            let oj = if j < pos { j } else if j == pos { -1 } else { j - 1 };
            if i != pos && j != pos {
                assert(n[i] == old_ws[oi]);
                assert(n[j] == old_ws[oj]);
            } else if i == pos {
                assert(n[j] == old_ws[oj]);
            } else {
                assert(n[i] == old_ws[oi]);
            }
        }
    }
    pos
}

/// The sort key of a process, computed.
fn key_of(p: &ProcessSnapshot, mode: &SortMode) -> (r: u128)
    ensures
        r == sort_key(*p, *mode),
{
    match mode {
        SortMode::Cpu => p.cpu_usage as u128,
        SortMode::Memory => p.memory_kb as u128,
    }
}

/// The processes that pass the filter, highest sort key first, with their
/// sort keys.
pub(crate) fn listing(
    snapshots: &HashMap<u32, ProcessSnapshot>,
    sort_mode: &SortMode,
    filter_query: Option<&str>,
) -> (r: (Vec<u32>, Vec<u128>))
    ensures
        is_listing(snapshots@, query_view(filter_query), *sort_mode, r.0@),
        r.0@.len() == r.1@.len(),
        sorted_desc(r.1@),
        forall|i: int|
            0 <= i < r.0@.len() ==> r.1@[i] == sort_key(snapshots@[#[trigger] r.0@[i]], *sort_mode),
{
    let ghost q = query_view(filter_query);
    let qchars: Option<Vec<char>> = match filter_query {
        Some(s) => Some(to_chars(s)),
        None => None,
    };
    let mut order: Vec<u32> = Vec::new();
    let mut ws: Vec<u128> = Vec::new();
    let ghost entries = spec_hash_map_iter(snapshots).remaining();
    for kv in it: snapshots.iter()
        invariant
            it.seq() == entries,
            entries == spec_hash_map_iter(snapshots).remaining(),
            entries.no_duplicates(),
            q == query_view(filter_query),
            match qchars {
                Some(v) => q == Some(v@),
                None => q is None,
            },
            order@.len() == ws@.len(),
            sorted_desc(ws@),
            order@.no_duplicates(),
            forall|i: int|
                0 <= i < order@.len() ==> {
                    &&& listed(snapshots@, q, #[trigger] order@[i])
                    &&& ws@[i] == sort_key(snapshots@[order@[i]], *sort_mode)
                    &&& exists|j: int| 0 <= j < it.index() && *entries[j].0 == order@[i]
                },
            forall|k: u32|
                listed(snapshots@, q, k) ==> (#[trigger] order@.contains(k) <==> exists|j: int|
                    0 <= j < it.index() && *entries[j].0 == k),
    {
        let (k, p) = kv;
        let ghost idx = it.index() as int;
        assert(snapshots@.contains_key(*k) && snapshots@[*k] == *p);
        let pass = match &qchars {
            None => true,
            Some(qv) => {
                let name = to_chars(p.name.as_str());
                contains_chars(&name, qv)
            },
        };
        assert(pass == passes(*p, q));
        if pass {
            proof {
                if order@.contains(*k) {
                    let i = choose|i: int| 0 <= i < order@.len() && order@[i] == *k;
                    let j = choose|j: int| 0 <= j < idx && *entries[j].0 == order@[i];
                    assert(entries[j] == entries[idx]);
                }
            }
            let w = key_of(p, sort_mode);
            let ghost old_order = order@;
            let ghost old_ws = ws@;
            let pos = insert_desc(&mut order, &mut ws, *k, w);
            proof {
                old_order.insert_ensures(pos as int, *k);
                old_ws.insert_ensures(pos as int, w);
                assert forall|x: u32| #[trigger] order@.contains(x) <==> (x == *k || old_order.contains(x)) by {
                    lemma_insert_contains(old_order, pos as int, *k, x);
                }
                assert forall|i: int, j: int| 0 <= i < j < order@.len() implies order@[i] != order@[j] by {
                    if i != pos && j != pos {
                        let oi = if i < pos { i } else { i - 1 };
                        let oj = if j < pos { j } else { j - 1 };
                        assert(order@[i] == old_order[oi] && order@[j] == old_order[oj]);
                    } else if i == pos {
                        let oj = if j < pos { j } else { j - 1 };
                        assert(order@[j] == old_order[oj]);
                        assert(old_order.contains(order@[j]));
                    } else {
                        let oi = if i < pos { i } else { i - 1 };
                        assert(order@[i] == old_order[oi]);
                        assert(old_order.contains(order@[i]));
                    }
                }
                assert forall|i: int| 0 <= i < order@.len() implies {
                    &&& listed(snapshots@, q, #[trigger] order@[i])
                    &&& ws@[i] == sort_key(snapshots@[order@[i]], *sort_mode)
                    &&& exists|j: int| 0 <= j < idx + 1 && *entries[j].0 == order@[i]
                } by {
                    if i == pos {
                        assert(*entries[idx].0 == order@[i]);
                    } else {
                        let oi = if i < pos { i } else { i - 1 };
                        assert(order@[i] == old_order[oi] && ws@[i] == old_ws[oi]);
                    }
                }
            }
        }
        proof {
            assert forall|x: u32| listed(snapshots@, q, x) implies (#[trigger] order@.contains(x)
                <==> exists|j: int| 0 <= j < idx + 1 && *entries[j].0 == x) by {
                if x == *k {
                    assert(*entries[idx].0 == x);
                }
            }
        }
    }
    proof {
        assert forall|k: u32| listed(snapshots@, q, k) implies #[trigger] order@.contains(k) by {
            let p = snapshots@[k];
            assert(entries.contains((&k, &p)));
            let j = choose|j: int| 0 <= j < entries.len() && entries[j] == (&k, &p);
            assert(*entries[j].0 == k);
        }
        assert forall|i: int, j: int| 0 <= i < j < order@.len() implies sort_key(
            snapshots@[#[trigger] order@[i]],
            *sort_mode,
        ) >= sort_key(snapshots@[#[trigger] order@[j]], *sort_mode) by {
            assert(ws@[i] >= ws@[j]);
        }
    }
    (order, ws)
}

/// The group a process belongs to: its container, or `host`.
pub open spec fn group_key(p: ProcessSnapshot) -> Seq<char> {
    match p.container_id {
        Some(c) => c@,
        None => "host"@,
    }
}

/// Some id of `ids` reads `id`.
pub open spec fn ids_have(ids: Seq<String>, id: Seq<char>) -> bool {
    exists|g: int| 0 <= g < ids.len() && (#[trigger] ids[g])@ == id
}

/// Some of the first `n` keys of `ks` belongs to group `id`.
pub open spec fn keys_have_group(snaps: Map<u32, ProcessSnapshot>, ks: Seq<u32>, n: int, id: Seq<char>) -> bool {
    exists|s: int| 0 <= s < n && group_key(snaps[#[trigger] ks[s]]) == id
}

/// The keys of `ks` whose process belongs to group `id`, in order.
pub open spec fn group_members(snaps: Map<u32, ProcessSnapshot>, ks: Seq<u32>, id: Seq<char>) -> Seq<u32>
    decreases ks.len(),
{
    if ks.len() == 0 {
        seq![]
    } else {
        let m = group_members(snaps, ks.drop_last(), id);
        if group_key(snaps[ks.last()]) == id {
            m.push(ks.last())
        } else {
            m
        }
    }
}

/// The summed CPU use of the processes.
pub open spec fn sum_cpu(snaps: Map<u32, ProcessSnapshot>, ks: Seq<u32>) -> nat
    decreases ks.len(),
{
    if ks.len() == 0 {
        0
    } else {
        sum_cpu(snaps, ks.drop_last()) + (snaps[ks.last()].cpu_usage as nat)
    }
}

/// The summed resident memory of the processes.
pub open spec fn sum_mem(snaps: Map<u32, ProcessSnapshot>, ks: Seq<u32>) -> nat
    decreases ks.len(),
{
    if ks.len() == 0 {
        0
    } else {
        sum_mem(snaps, ks.drop_last()) + (snaps[ks.last()].memory_kb as nat)
    }
}

/// What a group is sorted by: its summed CPU use or memory.
pub open spec fn group_weight(snaps: Map<u32, ProcessSnapshot>, mode: SortMode, ks: Seq<u32>) -> nat {
    match mode {
        SortMode::Cpu => sum_cpu(snaps, ks),
        SortMode::Memory => sum_mem(snaps, ks),
    }
}

/// `gids` lists every group of the listed processes exactly once, heaviest
/// group first.
pub open spec fn is_group_order(
    snaps: Map<u32, ProcessSnapshot>,
    mode: SortMode,
    order: Seq<u32>,
    gids: Seq<Seq<char>>,
) -> bool {
    &&& gids.no_duplicates()
    &&& forall|id: Seq<char>| #[trigger] gids.contains(id) <==> exists|k: u32|
        #[trigger] order.contains(k) && group_key(snaps[k]) == id
    &&& forall|i: int, j: int|
        0 <= i < j < gids.len() ==> group_weight(snaps, mode, group_members(snaps, order, #[trigger] gids[i]))
            >= group_weight(snaps, mode, group_members(snaps, order, #[trigger] gids[j]))
}

/// The rows of one group: its header with the group's sums, then its
/// processes one level in.
pub open spec fn group_rows(snaps: Map<u32, ProcessSnapshot>, order: Seq<u32>, id: Seq<char>) -> Seq<RowSpec> {
    let ms = group_members(snaps, order, id);
    seq![RowSpec::Header(id, sum_cpu(snaps, ms) as u128, sum_mem(snaps, ms) as u128)]
        + ms.map_values(|k: u32| RowSpec::Process(snaps[k].pid, 1))
}

/// The rows of the container view: the groups in order, each as
/// [`group_rows`] says.
pub open spec fn container_rows(snaps: Map<u32, ProcessSnapshot>, order: Seq<u32>, gids: Seq<Seq<char>>) -> Seq<RowSpec>
    decreases gids.len(),
{
    if gids.len() == 0 {
        seq![]
    } else {
        container_rows(snaps, order, gids.drop_last()) + group_rows(snaps, order, gids.last())
    }
}

/// The views of the rows.
pub open spec fn rows_view(rows: Seq<ViewRow>) -> Seq<RowSpec> {
    rows.map_values(|r: ViewRow| r@)
}

proof fn lemma_group_members_push(snaps: Map<u32, ProcessSnapshot>, ks: Seq<u32>, k: u32, id: Seq<char>)
    ensures
        group_members(snaps, ks.push(k), id) == if group_key(snaps[k]) == id {
            group_members(snaps, ks, id).push(k)
        } else {
            group_members(snaps, ks, id)
        },
{
    assert(ks.push(k).drop_last() =~= ks);
}

proof fn lemma_sums_bound(snaps: Map<u32, ProcessSnapshot>, ks: Seq<u32>)
    ensures
        sum_cpu(snaps, ks) <= ks.len() * 0xFFFF_FFFF_FFFF_FFFF,
        sum_mem(snaps, ks) <= ks.len() * 0xFFFF_FFFF_FFFF_FFFF,
    decreases ks.len(),
{
    if ks.len() > 0 {
        lemma_sums_bound(snaps, ks.drop_last());
    }
}

proof fn lemma_group_members_len(snaps: Map<u32, ProcessSnapshot>, ks: Seq<u32>, id: Seq<char>)
    ensures
        group_members(snaps, ks, id).len() <= ks.len(),
    decreases ks.len(),
{
    if ks.len() > 0 {
        lemma_group_members_len(snaps, ks.drop_last(), id);
    }
}

fn find_string(ids: &Vec<String>, s: &String) -> (r: Option<usize>)
    ensures
        match r {
            Some(j) => j < ids@.len() && ids@[j as int]@ == s@,
            None => forall|j: int| 0 <= j < ids@.len() ==> (#[trigger] ids@[j])@ != s@,
        },
{
    let mut j: usize = 0;
    while j < ids.len()
        invariant
            j <= ids@.len(),
            forall|i: int| 0 <= i < j ==> (#[trigger] ids@[i])@ != s@,
        decreases ids@.len() - j,
    {
        if ids[j] == *s {
            return Some(j);
        }
        j += 1;
    }
    None
}

/// `rows` is the process view of the snapshots: in the flat view one row per
/// process that passes the filter, highest sort key first; in the container
/// view those processes grouped as [`container_rows`] says.
pub open spec fn projection_of(
    snaps: Map<u32, ProcessSnapshot>,
    view_mode: ViewMode,
    sort_mode: SortMode,
    query: Option<Seq<char>>,
    rows: Seq<ViewRow>,
) -> bool {
    &&& view_mode == ViewMode::Flat ==> exists|order: Seq<u32>|
        is_listing(snaps, query, sort_mode, order) && rows_view(rows) == flat_rows(snaps, order)
    &&& view_mode == ViewMode::Container ==> exists|order: Seq<u32>, gids: Seq<Seq<char>>|
        is_listing(snaps, query, sort_mode, order) && is_group_order(snaps, sort_mode, order, gids)
            && rows_view(rows) == container_rows(snaps, order, gids)
}

/// Projects the snapshots into the rows of the process view. Only the
/// processes that pass the filter (whose name contains the query, where
/// there is one) are shown. In the flat view every such process has a row,
/// highest sort key first. In the container view they are grouped by
/// container (`host` for those in none): each group is a header with the
/// group's summed CPU use and memory followed by its processes, highest
/// sort key first, and the groups come heaviest first.
pub fn project_view(
    snapshots: &HashMap<u32, ProcessSnapshot>,
    view_mode: &ViewMode,
    sort_mode: &SortMode,
    filter_query: Option<&str>,
) -> (r: Vec<ViewRow>)
    ensures
        projection_of(snapshots@, *view_mode, *sort_mode, query_view(filter_query), r@),
{
    let (order, _weights) = listing(snapshots, sort_mode, filter_query);
    let ghost q = query_view(filter_query);
    let ghost snaps = snapshots@;
    let n = order.len();
    match view_mode {
        ViewMode::Flat => {
            let mut rows: Vec<ViewRow> = Vec::new();
            let mut t: usize = 0;
            while t < n
                invariant
                    t <= n == order@.len(),
                    snaps == snapshots@,
                    is_listing(snaps, q, *sort_mode, order@),
                    rows_view(rows@) == flat_rows(snaps, order@.take(t as int)),
                decreases n - t,
            {
                let k = order[t];
                assert(order@.contains(k));
                let pid = match snapshots.get(&k) {
                    Some(p) => p.pid,
                    None => 0,
                };
                let ghost before = rows@;
                rows.push(ViewRow::Process { pid, indent_level: 0 });
                assert(order@.take(t + 1) =~= order@.take(t as int).push(k));
                assert(rows_view(rows@) =~= rows_view(before).push(RowSpec::Process(pid, 0)));
                assert(flat_rows(snaps, order@.take(t + 1)) =~= flat_rows(snaps, order@.take(t as int)).push(
                    RowSpec::Process(snaps[k].pid, 0),
                ));
                t += 1;
            }
            assert(order@.take(n as int) =~= order@);
            rows
        },
        ViewMode::Container => {
            let mut ids: Vec<String> = Vec::new();
            let mut cpu: Vec<u128> = Vec::new();
            let mut mem: Vec<u128> = Vec::new();
            let mut gof: Vec<usize> = Vec::new();
            let mut t: usize = 0;
            while t < n
                invariant
                    t <= n == order@.len(),
                    snaps == snapshots@,
                    is_listing(snaps, q, *sort_mode, order@),
                    ids@.len() == cpu@.len() == mem@.len(),
                    gof@.len() == t,
                    forall|g1: int, g2: int|
                        0 <= g1 < g2 < ids@.len() ==> (#[trigger] ids@[g1])@ != (#[trigger] ids@[g2])@,
                    forall|g: int|
                        0 <= g < ids@.len() ==> {
                            &&& cpu@[g] == sum_cpu(snaps, group_members(snaps, order@.take(t as int), (#[trigger] ids@[g])@))
                            &&& mem@[g] == sum_mem(snaps, group_members(snaps, order@.take(t as int), ids@[g]@))
                        },
                    forall|s: int|
                        0 <= s < t ==> #[trigger] gof@[s] < ids@.len() && ids@[gof@[s] as int]@ == group_key(
                            snaps[order@[s]],
                        ),
                    forall|id: Seq<char>| #[trigger] ids_have(ids@, id) <==> keys_have_group(snaps, order@, t as int, id),
                decreases n - t,
            {
                let k = order[t];
                assert(order@.contains(k));
                let ghost take_t = order@.take(t as int);
                assert(order@.take(t + 1) =~= take_t.push(k));
                let (c, m, gid) = match snapshots.get(&k) {
                    Some(p) => {
                        let gid = match &p.container_id {
                            Some(cid) => cid.clone(),
                            None => String::from_str("host"),
                        };
                        (p.cpu_usage, p.memory_kb, gid)
                    },
                    None => (0, 0, String::new()),
                };
                assert(gid@ == group_key(snaps[k]));
                let ghost old_ids = ids@;
                let ghost gidv = gid@;
                let j = match find_string(&ids, &gid) {
                    Some(j) => {
                        assert(ids@ == old_ids);
                        j
                    },
                    None => {
                        ids.push(gid);
                        cpu.push(0);
                        mem.push(0);
                        proof {
                            let g = ids@.len() - 1;
                            assert(group_members(snaps, take_t, ids@[g]@) =~= seq![]) by {
                                assert forall|s: int| 0 <= s < t implies group_key(snaps[take_t[s]]) != ids@[g]@ by {
                                    assert(take_t[s] == order@[s]);
                                    assert(gof@[s] < g);
                                }
                                lemma_no_members(snaps, take_t, ids@[g]@);
                            }
                        }
                        ids.len() - 1
                    },
                };
                assert(ids@[j as int]@ == gidv);
                assert(ids@.len() >= old_ids.len());
                assert(forall|g: int| 0 <= g < old_ids.len() ==> #[trigger] ids@[g] == old_ids[g]);
                assert(forall|g: int| 0 <= g < ids@.len() ==> (g < old_ids.len() && #[trigger] ids@[g] == old_ids[g]) || ids@[g]@ == gidv);
                proof {
                    lemma_sums_bound(snaps, group_members(snaps, take_t, ids@[j as int]@));
                    lemma_group_members_len(snaps, take_t, ids@[j as int]@);
                    assert(cpu@[j as int] + c <= u128::MAX) by (nonlinear_arith)
                        requires
                            cpu@[j as int] <= group_members(snaps, take_t, ids@[j as int]@).len() * 0xFFFF_FFFF_FFFF_FFFFint,
                            group_members(snaps, take_t, ids@[j as int]@).len() <= t,
                            t < 0x1_0000_0000_0000_0000int,
                            c <= 0xFFFF_FFFF_FFFF_FFFFint;
                    assert(mem@[j as int] + m <= u128::MAX) by (nonlinear_arith)
                        requires
                            mem@[j as int] <= group_members(snaps, take_t, ids@[j as int]@).len() * 0xFFFF_FFFF_FFFF_FFFFint,
                            group_members(snaps, take_t, ids@[j as int]@).len() <= t,
                            t < 0x1_0000_0000_0000_0000int,
                            m <= 0xFFFF_FFFF_FFFF_FFFFint;
                }
                let nc = cpu[j] + c as u128;
                let nm = mem[j] + m as u128;
                cpu.set(j, nc);
                mem.set(j, nm);
                gof.push(j);
                proof {
                    assert forall|g: int| 0 <= g < ids@.len() implies {
                        &&& cpu@[g] == sum_cpu(snaps, group_members(snaps, order@.take(t + 1), (#[trigger] ids@[g])@))
                        &&& mem@[g] == sum_mem(snaps, group_members(snaps, order@.take(t + 1), ids@[g]@))
                    } by {
                        lemma_group_members_push(snaps, take_t, k, ids@[g]@);
                        let ms = group_members(snaps, take_t, ids@[g]@);
                        assert(ms.push(k).drop_last() =~= ms);
                    }
                    assert forall|id: Seq<char>| #[trigger] ids_have(ids@, id) <==> keys_have_group(snaps, order@, t + 1, id) by {
                        if keys_have_group(snaps, order@, t + 1, id) {
                            let s = choose|s: int| 0 <= s < t + 1 && group_key(snaps[#[trigger] order@[s]]) == id;
                            if s == t {
                                assert(order@[s] == k);
                                assert(ids@[j as int]@ == id);
                            } else {
                                assert(keys_have_group(snaps, order@, t as int, id));
                                assert(ids_have(old_ids, id));
                                let g = choose|g: int| 0 <= g < old_ids.len() && (#[trigger] old_ids[g])@ == id;
                                assert(ids@[g] == old_ids[g]);
                            }
                            assert(ids_have(ids@, id));
                        }
                        if ids_have(ids@, id) {
                            let g = choose|g: int| 0 <= g < ids@.len() && (#[trigger] ids@[g])@ == id;
                            if g < old_ids.len() && ids@[g] == old_ids[g] {
                                assert(ids_have(old_ids, id));
                                let s = choose|s: int| 0 <= s < t && group_key(snaps[#[trigger] order@[s]]) == id;
                                assert(group_key(snaps[order@[s]]) == id);
                            } else {
                                assert(ids@[g]@ == gidv);
                                assert(group_key(snaps[order@[t as int]]) == id);
                            }
                        }
                    }
                }
                t += 1;
            }
            assert(order@.take(n as int) =~= order@);
            let ghost ids_v = ids@;
            // Order the groups, heaviest first.
            let ng = ids.len();
            let mut gidx: Vec<usize> = Vec::new();
            let mut gw: Vec<u128> = Vec::new();
            let mut g: usize = 0;
            while g < ng
                invariant
                    g <= ng == ids@.len() == cpu@.len() == mem@.len(),
                    gidx@.len() == gw@.len(),
                    gidx@.len() == g,
                    sorted_desc(gw@),
                    gidx@.no_duplicates(),
                    forall|x: usize| #[trigger] gidx@.contains(x) <==> x < g,
                    forall|i: int|
                        0 <= i < gidx@.len() ==> #[trigger] gw@[i] == match *sort_mode {
                            SortMode::Cpu => cpu@[gidx@[i] as int],
                            SortMode::Memory => mem@[gidx@[i] as int],
                        },
                decreases ng - g,
            {
                let w = match sort_mode {
                    SortMode::Cpu => cpu[g],
                    SortMode::Memory => mem[g],
                };
                let ghost old_idx = gidx@;
                let ghost old_w = gw@;
                let pos = insert_desc(&mut gidx, &mut gw, g, w);
                proof {
                    old_idx.insert_ensures(pos as int, g);
                    old_w.insert_ensures(pos as int, w);
                    assert forall|x: usize| #[trigger] gidx@.contains(x) <==> x < g + 1 by {
                        lemma_insert_contains(old_idx, pos as int, g, x);
                    }
                    assert forall|i: int, j: int| 0 <= i < j < gidx@.len() implies gidx@[i] != gidx@[j] by {
                        if i != pos && j != pos {
                            let oi = if i < pos { i } else { i - 1 };
                            let oj = if j < pos { j } else { j - 1 };
                            assert(gidx@[i] == old_idx[oi] && gidx@[j] == old_idx[oj]);
                        } else if i == pos {
                            let oj = if j < pos { j } else { j - 1 };
                            assert(gidx@[j] == old_idx[oj]);
                            assert(old_idx.contains(gidx@[j]));
                        } else {
                            let oi = if i < pos { i } else { i - 1 };
                            assert(gidx@[i] == old_idx[oi]);
                            assert(old_idx.contains(gidx@[i]));
                        }
                    }
                    assert forall|i: int| 0 <= i < gidx@.len() implies #[trigger] gw@[i] == match *sort_mode {
                        SortMode::Cpu => cpu@[gidx@[i] as int],
                        SortMode::Memory => mem@[gidx@[i] as int],
                    } by {
                        if i != pos {
                            let oi = if i < pos { i } else { i - 1 };
                            assert(gidx@[i] == old_idx[oi] && gw@[i] == old_w[oi]);
                        }
                    }
                }
                g += 1;
            }
            proof {
                assert forall|i: int| 0 <= i < gidx@.len() implies (#[trigger] gidx@[i]) < ng by {
                    assert(gidx@.contains(gidx@[i]));
                }
            }
            let ghost gids = gidx@.map_values(|x: usize| ids_v[x as int]@);
            // Lay the groups out as rows.
            let mut rows: Vec<ViewRow> = Vec::new();
            let mut i: usize = 0;
            while i < ng
                invariant
                    i <= ng == ids@.len() == cpu@.len() == mem@.len() == gidx@.len(),
                    ids_v == ids@,
                    n == order@.len() == gof@.len(),
                    snaps == snapshots@,
                    is_listing(snaps, q, *sort_mode, order@),
                    gids == gidx@.map_values(|x: usize| ids_v[x as int]@),
                    forall|j: int| 0 <= j < gidx@.len() ==> (#[trigger] gidx@[j]) < ng,
                    forall|g1: int, g2: int|
                        0 <= g1 < g2 < ids@.len() ==> (#[trigger] ids@[g1])@ != (#[trigger] ids@[g2])@,
                    forall|g: int|
                        0 <= g < ids@.len() ==> {
                            &&& cpu@[g] == sum_cpu(snaps, group_members(snaps, order@, (#[trigger] ids@[g])@))
                            &&& mem@[g] == sum_mem(snaps, group_members(snaps, order@, ids@[g]@))
                        },
                    forall|s: int|
                        0 <= s < n ==> #[trigger] gof@[s] < ids@.len() && ids@[gof@[s] as int]@ == group_key(
                            snaps[order@[s]],
                        ),
                    rows_view(rows@) == container_rows(snaps, order@, gids.take(i as int)),
                decreases ng - i,
            {
                let gi = gidx[i];
                let ghost id = ids@[gi as int]@;
                let ghost base = rows@;
                let hid = ids[gi].clone();
                rows.push(ViewRow::ContainerHeader { id: hid, aggregated_cpu: cpu[gi], aggregated_mem_kb: mem[gi] });
                proof {
                    lemma_sums_bound(snaps, group_members(snaps, order@, id));
                }
                let mut s: usize = 0;
                while s < n
                    invariant
                        s <= n == order@.len() == gof@.len(),
                        gi < ids@.len(),
                        id == ids@[gi as int]@,
                        snaps == snapshots@,
                        is_listing(snaps, q, *sort_mode, order@),
                        forall|g1: int, g2: int|
                            0 <= g1 < g2 < ids@.len() ==> (#[trigger] ids@[g1])@ != (#[trigger] ids@[g2])@,
                        forall|x: int|
                            0 <= x < n ==> #[trigger] gof@[x] < ids@.len() && ids@[gof@[x] as int]@ == group_key(
                                snaps[order@[x]],
                            ),
                        rows_view(rows@) == rows_view(base) + seq![RowSpec::Header(id, cpu@[gi as int], mem@[gi as int])]
                            + group_members(snaps, order@.take(s as int), id).map_values(
                            |k: u32| RowSpec::Process(snaps[k].pid, 1),
                        ),
                    decreases n - s,
                {
                    let k = order[s];
                    let ghost before = rows@;
                    proof {
                        lemma_group_members_push(snaps, order@.take(s as int), k, id);
                        assert(order@.take(s + 1) =~= order@.take(s as int).push(k));
                        assert(gof@[s as int] == gi <==> group_key(snaps[k]) == id);
                    }
                    if gof[s] == gi {
                        assert(order@.contains(k));
                        let pid = match snapshots.get(&k) {
                            Some(p) => p.pid,
                            None => 0,
                        };
                        rows.push(ViewRow::Process { pid, indent_level: 1 });
                        proof {
                            let ms = group_members(snaps, order@.take(s as int), id);
                            assert(ms.push(k).map_values(|k: u32| RowSpec::Process(snaps[k].pid, 1)) =~= ms.map_values(
                                |k: u32| RowSpec::Process(snaps[k].pid, 1),
                            ).push(RowSpec::Process(pid, 1)));
                            assert(rows_view(rows@) =~= rows_view(before).push(RowSpec::Process(pid, 1)));
                        }
                    }
                    s += 1;
                }
                proof {
                    assert(order@.take(n as int) =~= order@);
                    assert(gids.take(i + 1).drop_last() =~= gids.take(i as int));
                    assert(gids.take(i + 1).last() == id);
                    assert(rows_view(rows@) =~= container_rows(snaps, order@, gids.take(i as int)) + group_rows(snaps, order@, id));
                }
                i += 1;
            }
            proof {
                assert(gids.take(ng as int) =~= gids);
                lemma_group_order(snaps, *sort_mode, order@, ids@, cpu@, mem@, gidx@, gw@, gof@, gids);
            }
            rows
        },
    }
}

proof fn lemma_no_members(snaps: Map<u32, ProcessSnapshot>, ks: Seq<u32>, id: Seq<char>)
    requires
        forall|s: int| 0 <= s < ks.len() ==> group_key(snaps[#[trigger] ks[s]]) != id,
    ensures
        group_members(snaps, ks, id) == Seq::<u32>::empty(),
    decreases ks.len(),
{
    if ks.len() > 0 {
        assert forall|s: int| 0 <= s < ks.drop_last().len() implies group_key(snaps[#[trigger] ks.drop_last()[s]]) != id by {
            assert(ks.drop_last()[s] == ks[s]);
        }
        lemma_no_members(snaps, ks.drop_last(), id);
    }
}

proof fn lemma_group_order(
    snaps: Map<u32, ProcessSnapshot>,
    mode: SortMode,
    order: Seq<u32>,
    ids: Seq<String>,
    cpu: Seq<u128>,
    mem: Seq<u128>,
    gidx: Seq<usize>,
    gw: Seq<u128>,
    gof: Seq<usize>,
    gids: Seq<Seq<char>>,
)
    requires
        ids.len() == cpu.len() == mem.len() == gidx.len() == gw.len(),
        ids.len() <= usize::MAX,
        gof.len() == order.len(),
        gids == gidx.map_values(|x: usize| ids[x as int]@),
        sorted_desc(gw),
        gidx.no_duplicates(),
        forall|x: usize| #[trigger] gidx.contains(x) <==> x < ids.len(),
        forall|j: int| 0 <= j < gidx.len() ==> (#[trigger] gidx[j]) < ids.len(),
        forall|i: int|
            0 <= i < gidx.len() ==> #[trigger] gw[i] == match mode {
                SortMode::Cpu => cpu[gidx[i] as int],
                SortMode::Memory => mem[gidx[i] as int],
            },
        forall|g1: int, g2: int| 0 <= g1 < g2 < ids.len() ==> (#[trigger] ids[g1])@ != (#[trigger] ids[g2])@,
        forall|g: int|
            0 <= g < ids.len() ==> {
                &&& cpu[g] == sum_cpu(snaps, group_members(snaps, order, (#[trigger] ids[g])@))
                &&& mem[g] == sum_mem(snaps, group_members(snaps, order, ids[g]@))
            },
        forall|id: Seq<char>| #[trigger] ids_have(ids, id) <==> keys_have_group(snaps, order, order.len() as int, id),
    ensures
        is_group_order(snaps, mode, order, gids),
{
    assert forall|i: int, j: int| 0 <= i < j < gids.len() implies gids[i] != gids[j] by {
        assert(gidx[i] != gidx[j]);
        if gidx[i] < gidx[j] {
            assert(ids[gidx[i] as int]@ != ids[gidx[j] as int]@);
        } else {
            assert(ids[gidx[j] as int]@ != ids[gidx[i] as int]@);
        }
    }
    assert forall|id: Seq<char>| #[trigger] gids.contains(id) <==> exists|k: u32|
        #[trigger] order.contains(k) && group_key(snaps[k]) == id by {
        if gids.contains(id) {
            let i = choose|i: int| 0 <= i < gids.len() && gids[i] == id;
            assert(ids[gidx[i] as int]@ == id);
            assert(ids_have(ids, id));
            let s = choose|s: int| 0 <= s < order.len() && group_key(snaps[#[trigger] order[s]]) == id;
            assert(order.contains(order[s]) && group_key(snaps[order[s]]) == id);
        }
        if exists|k: u32| #[trigger] order.contains(k) && group_key(snaps[k]) == id {
            let k = choose|k: u32| #[trigger] order.contains(k) && group_key(snaps[k]) == id;
            let s = choose|s: int| 0 <= s < order.len() && order[s] == k;
            assert(group_key(snaps[order[s]]) == id);
            assert(keys_have_group(snaps, order, order.len() as int, id));
            assert(ids_have(ids, id));
            let g = choose|g: int| 0 <= g < ids.len() && (#[trigger] ids[g])@ == id;
            assert(gidx.contains(g as usize));
            let i = choose|i: int| 0 <= i < gidx.len() && gidx[i] == g as usize;
            assert(gidx[i] as int == g);
            assert(gids[i] == ids[gidx[i] as int]@);
            assert(gids.contains(gids[i]));
        }
    }
    assert forall|i: int, j: int| 0 <= i < j < gids.len() implies group_weight(
        snaps,
        mode,
        group_members(snaps, order, #[trigger] gids[i]),
    ) >= group_weight(snaps, mode, group_members(snaps, order, #[trigger] gids[j])) by {
        assert(gw[i] >= gw[j]);
        let a = gidx[i] as int;
        let b = gidx[j] as int;
        assert(gids[i] == ids[a]@);
        assert(gids[j] == ids[b]@);
    }
}

/// The filter and the sort keys: without a query every process passes, and
/// with one a process passes exactly when its name holds the query as a
/// contiguous run of characters; processes sort by their CPU use or by
/// their memory; a process without a container is grouped under `host`.
pub proof fn lemma_filter_and_keys(p: ProcessSnapshot, q: Seq<char>)
    ensures
        passes(p, None),
        passes(p, Some(q)) <==> exists|i: int|
            0 <= i && i + q.len() <= p.name@.len() && #[trigger] p.name@.subrange(i, i + q.len()) == q,
        sort_key(p, SortMode::Cpu) == p.cpu_usage as int,
        sort_key(p, SortMode::Memory) == p.memory_kb as int,
        p.container_id is None ==> group_key(p) == "host"@,
        p.container_id matches Some(c) ==> group_key(p) == c@,
{
}

/// The flat rows are one process row per key of the listing, in order, at
/// indent level 0.
pub proof fn lemma_flat_rows(snaps: Map<u32, ProcessSnapshot>, order: Seq<u32>)
    ensures
        flat_rows(snaps, order).len() == order.len(),
        forall|i: int| 0 <= i < order.len() ==> #[trigger] flat_rows(snaps, order)[i] == RowSpec::Process(snaps[order[i]].pid, 0),
{
}

/// A group's members are exactly the keys of the group, in their order, and
/// its sums add each member's CPU use and memory once.
pub proof fn lemma_group_members(snaps: Map<u32, ProcessSnapshot>, ks: Seq<u32>, id: Seq<char>, k: u32)
    ensures
        group_members(snaps, ks, id).contains(k) <==> ks.contains(k) && group_key(snaps[k]) == id,
        sum_cpu(snaps, seq![]) == 0 && sum_mem(snaps, seq![]) == 0,
        sum_cpu(snaps, ks.push(k)) == sum_cpu(snaps, ks) + snaps[k].cpu_usage,
        sum_mem(snaps, ks.push(k)) == sum_mem(snaps, ks) + snaps[k].memory_kb,
    decreases ks.len(),
{
    assert(ks.push(k).drop_last() =~= ks);
    if ks.len() > 0 {
        lemma_group_members(snaps, ks.drop_last(), id, k);
        let m = group_members(snaps, ks.drop_last(), id);
        if ks.drop_last().contains(k) {
            let i = choose|i: int| 0 <= i < ks.drop_last().len() && ks.drop_last()[i] == k;
            assert(ks[i] == k);
        }
        if ks.contains(k) {
            let i = choose|i: int| 0 <= i < ks.len() && ks[i] == k;
            if i < ks.len() - 1 {
                assert(ks.drop_last()[i] == k);
            }
        }
        if group_key(snaps[ks.last()]) == id {
            let m2 = m.push(ks.last());
            if m2.contains(k) {
                let j = choose|j: int| 0 <= j < m2.len() && m2[j] == k;
                if j < m.len() {
                    assert(m[j] == k);
                }
            }
            if m.contains(k) {
                let j = choose|j: int| 0 <= j < m.len() && m[j] == k;
                assert(m2[j] == k);
            }
            if k == ks.last() {
                assert(m2[m.len() as int] == k);
            }
        }
    }
}

} // verus!
