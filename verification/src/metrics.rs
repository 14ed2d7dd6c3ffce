//! The published numbers of a node: which series it has, what the values of their labels are,
//! and how the width of a delivery is counted.

use crate::names::{names_of, no_two_series_share_a_name};
use crate::scrape::{
    Amount, BudgetTerm, CgroupSample, DeviceCounters, MallocSample, RailSample, RdmaSample,
    Reported, Samples, StoreSample, WindowSlots, cgroup_readings, client_edge_readings,
    delivery_readings, device_readings, eviction_readings, malloc_readings, nothing_evicted,
    plane_readings, rails_readings, rdma_readings, scrape_readings, slot_readings,
    socket_readings, staging_readings, store_readings, term_readings, told,
};
use crate::series::{
    BACKEND_CONNECTIONS, BACKEND_PEER_ENDPOINTS, CGROUP_MEMORY_ANON_BYTES,
    CGROUP_MEMORY_CURRENT_BYTES, CGROUP_MEMORY_FILE_BYTES, CGROUP_MEMORY_FILE_DIRTY_BYTES,
    CGROUP_MEMORY_FILE_WRITEBACK_BYTES, CGROUP_MEMORY_MAX_BYTES, CGROUP_MEMORY_OOM_KILL_TOTAL,
    CGROUP_MEMORY_OOM_TOTAL, CHUNK_STORE_CORRUPT_SLOTS_TOTAL, CHUNK_STORE_CRC_MISMATCHES_TOTAL,
    CHUNK_STORE_EVICTIONS_TOTAL, CHUNK_STORE_HITS_TOTAL, CHUNK_STORE_IO_ERRORS_TOTAL,
    CHUNK_STORE_KEY_MISMATCHES_TOTAL, CHUNK_STORE_MISSES_TOTAL, CHUNK_STORE_QUEUE_SECONDS_MEAN,
    CHUNK_STORE_READ_BYTES_TOTAL, CHUNK_STORE_READ_SECONDS_MAX, CHUNK_STORE_READ_SECONDS_MEAN,
    CHUNK_STORE_READ_SECONDS_TOTAL, CHUNK_STORE_SCAN_RECOVERED, CHUNK_STORE_SCAN_SECONDS,
    CHUNK_STORE_SERVICE_SECONDS_MAX, CHUNK_STORE_SERVICE_SECONDS_MEAN,
    CHUNK_STORE_SERVICE_SECONDS_TOTAL, CHUNK_STORE_SLOTS_CAPACITY, CHUNK_STORE_SLOTS_USED,
    CHUNK_STORE_WRITES_TOTAL, CHUNK_STORE_WRITE_DEDUPS_TOTAL, CHUNK_STORE_WRITTEN_BYTES_TOTAL,
    DELIVERY_PINNED_BYTES, DELIVERY_UNKNOWN_PEER_DECLINES_TOTAL,
    DELIVERY_UNKNOWN_PEER_RETRIES_TOTAL, Described, EFA_ANNOUNCED_ENTRIES,
    EFA_CLIENT_AH_ENTRIES, EFA_CLIENT_EVICTIONS_TOTAL, EFA_CLIENT_READY_ENTRIES,
    MALLOC_FREE_RETAINED_BYTES, MALLOC_HEAP_BYTES, MALLOC_IN_USE_BYTES, MALLOC_MMAPPED_BYTES,
    MEMORY_BUDGET_BYTES, MEMORY_BUDGET_TOTAL_BYTES, NODE_DEVICE_READ_BYTES_TOTAL,
    NODE_DEVICE_WRITTEN_BYTES_TOTAL, RDMA_CQ_ERRORS_TOTAL, RDMA_HOLDER_COPY_SECONDS_TOTAL,
    RDMA_POST_BATCH_SECONDS_TOTAL, RDMA_RAIL, RDMA_RAILS, RDMA_REQUESTER_COPY_SECONDS_TOTAL,
    RDMA_REQUESTER_SLOTS_IN_USE, RDMA_UNOBSERVED_COMPLETION_FAILURES_TOTAL,
    RDMA_WRITE_COMPLETION_WAIT_SECONDS_TOTAL, RDMA_WRITE_SOURCES_HELD,
    RDMA_WRITE_SOURCES_ORPHANED_TOTAL, SCATTER_STAGED_BYTES, SCATTER_STAGED_BYTES_PEAK,
    SCATTER_STAGING_BUDGET_BYTES, SCATTER_WINDOWS_IN_FLIGHT, SCATTER_WINDOWS_IN_FLIGHT_LIMIT,
    SCATTER_WINDOWS_IN_FLIGHT_PEAK, Series, backend_read_series, cache_path_series,
    cgroup_series, chunk_store_series, delivery_series, device_io_series, fill_coalesce_series,
    fill_guard_series, listed, listener_series, malloc_series, memory_budget_series,
    peer_path_series, process_series, rdma_series, register_backend_read_metrics,
    register_cache_path_counters, register_cgroup_gauges, register_chunk_store_metrics,
    register_delivery_metrics, register_device_io_metrics, register_fill_coalesce_metrics,
    register_fill_guard_metrics, register_listener_metrics, register_malloc_gauges,
    register_memory_budget_gauges, register_non_counters, register_peer_path_counters,
    register_rdma_gauges, register_scatter_metrics, register_slab_metrics, scatter_series,
    slab_series,
};
use crate::staging::StagingArea;
use vstd::prelude::*;

verus! {

// ---- the width of a delivery ----

/// How many chunks are in flight after one more, and the most there ever were.
pub open spec fn one_more(now: int, peak: int) -> (int, int) {
    (
        now + 1,
        if now + 1 > peak {
            now + 1
        } else {
            peak
        },
    )
}

/// The gauges of the chunks in flight after one more: how many there are, and the most
/// there ever were.
pub fn chunk_in_flight(current: i64, peak: i64) -> (r: (i64, i64))
    requires
        current < i64::MAX,
    ensures
        (r.0 as int, r.1 as int) == one_more(current as int, peak as int),
{
    let now: i64 = current + 1;
    if now > peak {
        (now, now)
    } else {
        (now, peak)
    }
}

/// The most chunks that were ever in flight, after starts and ends in that order, from none
/// in flight. A start is `true`.
pub open spec fn flight(moves: Seq<bool>) -> (int, int)
    decreases moves.len(),
{
    if moves.len() == 0 {
        (0, 0)
    } else {
        let (now, peak) = flight(moves.drop_last());
        if moves.last() {
            one_more(now, peak)
        } else {
            (now - 1, peak)
        }
    }
}

/// How many of the moves are starts.
pub open spec fn starts(moves: Seq<bool>) -> int
    decreases moves.len(),
{
    if moves.len() == 0 {
        0
    } else {
        starts(moves.drop_last()) + if moves.last() {
            1int
        } else {
            0
        }
    }
}

/// What is in flight is what started and did not end.
pub proof fn in_flight_is_what_did_not_end(moves: Seq<bool>)
    ensures
        flight(moves).0 == starts(moves) - (moves.len() - starts(moves)),
    decreases moves.len(),
{
    if moves.len() > 0 {
        in_flight_is_what_did_not_end(moves.drop_last());
    }
}

/// One more start counts one, and moves the peak only where it passes it, to the new count.
pub proof fn a_start_counts_one(now: int, peak: int)
    ensures
        one_more(now, peak).0 == now + 1,
        now < peak ==> one_more(now, peak).1 == peak,
        now >= peak ==> one_more(now, peak).1 == now + 1,
{
}

/// The peak is reached at some time and never passed; and it never falls.
pub proof fn the_peak_latches(moves: Seq<bool>, n: nat)
    requires
        n <= moves.len(),
    ensures
        flight(moves.take(n as int)).0 <= flight(moves).1,
        flight(moves.take(n as int)).1 <= flight(moves).1,
        exists|k: nat| k <= moves.len() && (#[trigger] flight(moves.take(k as int))).0 == flight(moves).1,
    decreases moves.len(),
{
    if moves.len() == 0 {
        assert(moves.take(n as int) =~= moves);
        assert(flight(moves.take(0nat as int)).0 == flight(moves).1);
    } else {
        let front = moves.drop_last();
        let len = moves.len();
        assert(moves.take(len as int) =~= moves);
        if n < len {
            the_peak_latches(front, n);
            assert(front.take(n as int) =~= moves.take(n as int));
        } else {
            the_peak_latches(front, front.len());
            assert(front.take(front.len() as int) =~= front);
        }
        let k = choose|k: nat| k <= front.len() && (#[trigger] flight(front.take(k as int))).0 == flight(front).1;
        assert(front.take(k as int) =~= moves.take(k as int));
        if flight(moves).1 == flight(front).1 {
            assert(flight(moves.take(k as int)).0 == flight(moves).1);
        } else {
            assert(flight(moves.take(len as int)).0 == flight(moves).1);
        }
    }
}

// ---- label values ----

/// The phase in which a window waits for a slot.
pub const SCATTER_PHASE_PERMIT_WAIT: &'static str = "permit_wait";

/// The phase in which an owner takes a window.
pub const SCATTER_PHASE_OWNER_RPC: &'static str = "owner_rpc";

/// The phase in which an owner refuses a window.
pub const SCATTER_PHASE_OWNER_REFUSED: &'static str = "owner_refused";

/// The phase in which an offer fails on the way.
pub const SCATTER_PHASE_OWNER_FAILED: &'static str = "owner_failed";

/// The phase in which this node uploads a window itself.
pub const SCATTER_PHASE_LOCAL_UPLOAD: &'static str = "local_upload";

/// The phase in which the upload is completed, once for each write.
pub const SCATTER_PHASE_COMPLETE: &'static str = "complete";

/// The phase in which this node stages a window for another.
pub const SCATTER_PHASE_SERVED_STAGE: &'static str = "served_stage";

/// The phase in which this node uploads a window for another.
pub const SCATTER_PHASE_SERVED_UPLOAD: &'static str = "served_upload";

/// The stage in which a chunk is read from the cache.
pub const DELIVERY_STAGE_CACHE_READ: &'static str = "cache_read";

/// The stage in which a chunk is copied into the client's memory.
pub const DELIVERY_STAGE_COPY: &'static str = "copy";

/// The stage in which a chunk is written into client-registered memory.
pub const DELIVERY_STAGE_RDMA_WRITE: &'static str = "rdma_write";

/// The stage in which the checksum of a written chunk is taken.
pub const DELIVERY_STAGE_DIGEST: &'static str = "digest";

/// The phases of a scattered write.
pub open spec fn scatter_phases() -> Seq<Seq<char>> {
    seq![
        SCATTER_PHASE_PERMIT_WAIT@,
        SCATTER_PHASE_OWNER_RPC@,
        SCATTER_PHASE_OWNER_REFUSED@,
        SCATTER_PHASE_OWNER_FAILED@,
        SCATTER_PHASE_LOCAL_UPLOAD@,
        SCATTER_PHASE_COMPLETE@,
        SCATTER_PHASE_SERVED_STAGE@,
        SCATTER_PHASE_SERVED_UPLOAD@,
    ]
}

/// The stages of a delivery.
pub open spec fn delivery_stages() -> Seq<Seq<char>> {
    seq![
        DELIVERY_STAGE_CACHE_READ@,
        DELIVERY_STAGE_COPY@,
        DELIVERY_STAGE_RDMA_WRITE@,
        DELIVERY_STAGE_DIGEST@,
    ]
}

/// No two phases of a scattered write, and no two stages of a delivery, are counted under
/// one name.
pub proof fn phases_and_stages_have_names_of_their_own()
    ensures
        scatter_phases().no_duplicates(),
        delivery_stages().no_duplicates(),
{
    reveal_strlit("permit_wait");
    reveal_strlit("owner_rpc");
    reveal_strlit("owner_refused");
    reveal_strlit("owner_failed");
    reveal_strlit("local_upload");
    reveal_strlit("complete");
    reveal_strlit("served_stage");
    reveal_strlit("served_upload");
    reveal_strlit("cache_read");
    reveal_strlit("copy");
    reveal_strlit("rdma_write");
    reveal_strlit("digest");
    let phases = scatter_phases();
    assert forall|i: int, j: int| 0 <= i < phases.len() && 0 <= j < phases.len() && i != j implies (
    #[trigger] phases[i]) != (#[trigger] phases[j]) by {
        assert(phases[0].len() == 11 && phases[1].len() == 9 && phases[5].len() == 8);
        assert(phases[2].len() == 13 && phases[2][0] == 'o');
        assert(phases[7].len() == 13 && phases[7][0] == 's');
        assert(phases[3].len() == 12 && phases[3][0] == 'o');
        assert(phases[4].len() == 12 && phases[4][0] == 'l');
        assert(phases[6].len() == 12 && phases[6][0] == 's');
        assert(i == 0 || i == 1 || i == 2 || i == 3 || i == 4 || i == 5 || i == 6 || i == 7);
        assert(j == 0 || j == 1 || j == 2 || j == 3 || j == 4 || j == 5 || j == 6 || j == 7);
    }
    let stages = delivery_stages();
    assert forall|i: int, j: int| 0 <= i < stages.len() && 0 <= j < stages.len() && i != j implies (
    #[trigger] stages[i]) != (#[trigger] stages[j]) by {
        assert(stages[0].len() == 10 && stages[0][0] == 'c');
        assert(stages[2].len() == 10 && stages[2][0] == 'r');
        assert(stages[1].len() == 4 && stages[3].len() == 6);
        assert(i == 0 || i == 1 || i == 2 || i == 3);
        assert(j == 0 || j == 1 || j == 2 || j == 3);
    }
}

// ---- the series of a node ----

/// The series of a node.
#[derive(Debug)]
pub struct Metrics {
    /// Each of them, in the order in which they are registered.
    pub series: Vec<Series>,
}

/// One group of series after another.
pub open spec fn all_of(groups: Seq<Seq<Described>>) -> Seq<Described>
    decreases groups.len(),
{
    if groups.len() == 0 {
        Seq::empty()
    } else {
        all_of(groups.drop_last()) + groups.last()
    }
}

/// The groups of series of a node. Those of the RDMA plane are there where the node is built
/// with one.
pub open spec fn node_groups(rdma: bool) -> Seq<Seq<Described>> {
    seq![
        process_series(),
        if rdma {
            rdma_series()
        } else {
            Seq::empty()
        },
        fill_guard_series(),
        cache_path_series(),
        peer_path_series(),
        cgroup_series(),
        malloc_series(),
        memory_budget_series(),
        backend_read_series(),
        fill_coalesce_series(),
        delivery_series(),
        scatter_series(),
        listener_series(),
        slab_series(),
        chunk_store_series(),
        device_io_series(),
    ]
}

/// Add a group of series.
fn add_group(list: &mut Vec<Series>, group: Vec<Series>, Ghost(before): Ghost<Seq<Seq<Described>>>)
    requires
        listed(old(list)@) == all_of(before),
    ensures
        listed(final(list)@) == all_of(before.push(listed(group@))),
{
    let mut rest = group;
    list.append(&mut rest);
    assert(before.push(listed(group@)).drop_last() =~= before);
    assert(listed(list@) =~= all_of(before) + listed(group@));
}

impl Metrics {
    /// The series of a node, with or without those of the RDMA plane. No two share a name.
    pub fn new(rdma: bool) -> (m: Self)
        ensures
            listed(m.series@) == all_of(node_groups(rdma)),
            names_of(listed(m.series@)).no_duplicates(),
    {
        let mut list: Vec<Series> = Vec::new();
        let ghost mut groups: Seq<Seq<Described>> = Seq::empty();
        assert(listed(list@) =~= all_of(groups));
        add_group(&mut list, register_non_counters(), Ghost(groups));
        proof {
            groups = groups.push(process_series());
        }
        let plane = if rdma {
            register_rdma_gauges()
        } else {
            Vec::new()
        };
        assert(listed(plane@) =~= node_groups(rdma)[1]);
        add_group(&mut list, plane, Ghost(groups));
        proof {
            groups = groups.push(node_groups(rdma)[1]);
        }
        add_group(&mut list, register_fill_guard_metrics(), Ghost(groups));
        proof {
            groups = groups.push(fill_guard_series());
        }
        add_group(&mut list, register_cache_path_counters(), Ghost(groups));
        proof {
            groups = groups.push(cache_path_series());
        }
        add_group(&mut list, register_peer_path_counters(), Ghost(groups));
        proof {
            groups = groups.push(peer_path_series());
        }
        add_group(&mut list, register_cgroup_gauges(), Ghost(groups));
        proof {
            groups = groups.push(cgroup_series());
        }
        add_group(&mut list, register_malloc_gauges(), Ghost(groups));
        proof {
            groups = groups.push(malloc_series());
        }
        add_group(&mut list, register_memory_budget_gauges(), Ghost(groups));
        proof {
            groups = groups.push(memory_budget_series());
        }
        add_group(&mut list, register_backend_read_metrics(), Ghost(groups));
        proof {
            groups = groups.push(backend_read_series());
        }
        add_group(&mut list, register_fill_coalesce_metrics(), Ghost(groups));
        proof {
            groups = groups.push(fill_coalesce_series());
        }
        add_group(&mut list, register_delivery_metrics(), Ghost(groups));
        proof {
            groups = groups.push(delivery_series());
        }
        add_group(&mut list, register_scatter_metrics(), Ghost(groups));
        proof {
            groups = groups.push(scatter_series());
        }
        add_group(&mut list, register_listener_metrics(), Ghost(groups));
        proof {
            groups = groups.push(listener_series());
        }
        add_group(&mut list, register_slab_metrics(), Ghost(groups));
        proof {
            groups = groups.push(slab_series());
        }
        add_group(&mut list, register_chunk_store_metrics(), Ghost(groups));
        proof {
            groups = groups.push(chunk_store_series());
        }
        add_group(&mut list, register_device_io_metrics(), Ghost(groups));
        proof {
            groups = groups.push(device_io_series());
        }
        assert(groups =~= node_groups(rdma));
        proof {
            no_two_series_share_a_name(rdma);
        }
        Metrics { series: list }
    }
}

/// A node without an RDMA plane has the series of one with it but for the plane's own, in the same
/// order.
pub proof fn only_the_planes_series_depend_on_it()
    ensures
        node_groups(true).len() == node_groups(false).len(),
        node_groups(true)[1] == rdma_series(),
        node_groups(false)[1].len() == 0,
        forall|k: int|
            0 <= k < node_groups(true).len() && k != 1 ==> #[trigger] node_groups(true)[k]
                == node_groups(false)[k],
{
}

/// Every group is registered whole, behind the ones before it.
pub proof fn groups_are_registered_whole(groups: Seq<Seq<Described>>, group: Seq<Described>)
    ensures
        all_of(groups.push(group)) == all_of(groups) + group,
        all_of(Seq::empty()) == Seq::<Described>::empty(),
{
    assert(groups.push(group).drop_last() =~= groups);
}

// ---- a scrape sets what is registered ----

/// Whether a series can be set to a reading: it is a gauge of that name, and has a value for
/// each of its labels.
pub open spec fn serves(d: Described, r: Reported) -> bool {
    &&& d.name == r.name
    &&& d.labels.len() == r.labels.len()
    &&& d.kind.is_gauge()
}

/// Whether one of the series can be set to a reading.
pub open spec fn fits(r: Reported, list: Seq<Described>) -> bool {
    exists|k: int| 0 <= k < list.len() && serves(#[trigger] list[k], r)
}

/// Whether for each reading one of the series can be set to it.
pub open spec fn all_fit(readings: Seq<Reported>, list: Seq<Described>) -> bool {
    forall|i: int| 0 <= i < readings.len() ==> fits(#[trigger] readings[i], list)
}

/// What fits a group fits all of them.
proof fn lemma_group_fits(readings: Seq<Reported>, groups: Seq<Seq<Described>>, k: int)
    requires
        0 <= k < groups.len(),
        all_fit(readings, groups[k]),
    ensures
        all_fit(readings, all_of(groups)),
    decreases groups.len(),
{
    let front = all_of(groups.drop_last());
    let last = groups.last();
    if k == groups.len() - 1 {
        assert forall|i: int| 0 <= i < readings.len() implies fits(
            #[trigger] readings[i],
            front + last,
        ) by {
            let j = choose|j: int| 0 <= j < last.len() && serves(#[trigger] last[j], readings[i]);
            assert((front + last)[front.len() + j] == last[j]);
        }
    } else {
        lemma_group_fits(readings, groups.drop_last(), k);
        assert forall|i: int| 0 <= i < readings.len() implies fits(
            #[trigger] readings[i],
            front + last,
        ) by {
            let j = choose|j: int| 0 <= j < front.len() && serves(#[trigger] front[j], readings[i]);
            assert((front + last)[j] == front[j]);
        }
    }
}
/// The connections are among the series of the node.
proof fn lemma_sockets_fit(tcp: &str, tcp6: &str)
    ensures
        all_fit(socket_readings(tcp, tcp6), process_series()),
{
    let list = process_series();
    let told = socket_readings(tcp, tcp6);
    assert forall|i: int| 0 <= i < told.len() implies fits(#[trigger] told[i], list) by {
        assert(list[4].name == BACKEND_CONNECTIONS@);
        assert(list[5].name == BACKEND_PEER_ENDPOINTS@);
    }
}
/// The allocator has a series for each of its numbers.
proof fn lemma_malloc_fits(sample: Option<MallocSample>)
    ensures
        all_fit(malloc_readings(sample), malloc_series()),
{
    let list = malloc_series();
    let told = malloc_readings(sample);
    assert forall|i: int| 0 <= i < told.len() implies fits(#[trigger] told[i], list) by {
        assert(list[0].name == MALLOC_HEAP_BYTES@);
        assert(list[1].name == MALLOC_MMAPPED_BYTES@);
        assert(list[2].name == MALLOC_IN_USE_BYTES@);
        assert(list[3].name == MALLOC_FREE_RETAINED_BYTES@);
    }
}
/// The chunk store has a series for each of its numbers.
proof fn lemma_store_fits(sample: Option<StoreSample>)
    ensures
        all_fit(store_readings(sample), chunk_store_series()),
{
    let list = chunk_store_series();
    let told = store_readings(sample);
    assert forall|i: int| 0 <= i < told.len() implies fits(#[trigger] told[i], list) by {
        assert(list[0].name == CHUNK_STORE_HITS_TOTAL@);
        assert(list[1].name == CHUNK_STORE_MISSES_TOTAL@);
        assert(list[2].name == CHUNK_STORE_READ_BYTES_TOTAL@);
        assert(list[3].name == CHUNK_STORE_WRITTEN_BYTES_TOTAL@);
        assert(list[11].name == CHUNK_STORE_WRITES_TOTAL@);
        assert(list[12].name == CHUNK_STORE_WRITE_DEDUPS_TOTAL@);
        assert(list[13].name == CHUNK_STORE_EVICTIONS_TOTAL@);
        assert(list[14].name == CHUNK_STORE_KEY_MISMATCHES_TOTAL@);
        assert(list[15].name == CHUNK_STORE_CRC_MISMATCHES_TOTAL@);
        assert(list[16].name == CHUNK_STORE_CORRUPT_SLOTS_TOTAL@);
        assert(list[17].name == CHUNK_STORE_IO_ERRORS_TOTAL@);
        assert(list[21].name == CHUNK_STORE_SCAN_RECOVERED@);
        assert(list[4].name == CHUNK_STORE_READ_SECONDS_MEAN@);
        assert(list[5].name == CHUNK_STORE_READ_SECONDS_MAX@);
        assert(list[6].name == CHUNK_STORE_SERVICE_SECONDS_MEAN@);
        assert(list[9].name == CHUNK_STORE_SERVICE_SECONDS_MAX@);
        assert(list[10].name == CHUNK_STORE_QUEUE_SECONDS_MEAN@);
        assert(list[7].name == CHUNK_STORE_SERVICE_SECONDS_TOTAL@);
        assert(list[8].name == CHUNK_STORE_READ_SECONDS_TOTAL@);
        assert(list[20].name == CHUNK_STORE_SCAN_SECONDS@);
        assert(list[18].name == CHUNK_STORE_SLOTS_USED@);
        assert(list[19].name == CHUNK_STORE_SLOTS_CAPACITY@);
    }
}
/// The control group has a series for each of its numbers.
proof fn lemma_cgroup_fits(sample: Option<CgroupSample>)
    ensures
        all_fit(cgroup_readings(sample), cgroup_series()),
{
    let list = cgroup_series();
    let told = cgroup_readings(sample);
    assert forall|i: int| 0 <= i < told.len() implies fits(#[trigger] told[i], list) by {
        assert(list[0].name == CGROUP_MEMORY_CURRENT_BYTES@);
        assert(list[2].name == CGROUP_MEMORY_FILE_BYTES@);
        assert(list[3].name == CGROUP_MEMORY_FILE_DIRTY_BYTES@);
        assert(list[4].name == CGROUP_MEMORY_FILE_WRITEBACK_BYTES@);
        assert(list[5].name == CGROUP_MEMORY_ANON_BYTES@);
        assert(list[6].name == CGROUP_MEMORY_OOM_TOTAL@);
        assert(list[7].name == CGROUP_MEMORY_OOM_KILL_TOTAL@);
        assert(list[1].name == CGROUP_MEMORY_MAX_BYTES@);
    }
}
/// The pinned bytes have a series.
proof fn lemma_delivery_fits(in_use: Option<u64>)
    ensures
        all_fit(delivery_readings(in_use), delivery_series()),
{
    let list = delivery_series();
    let told = delivery_readings(in_use);
    assert forall|i: int| 0 <= i < told.len() implies fits(#[trigger] told[i], list) by {
        assert(list[15].name == DELIVERY_PINNED_BYTES@);
    }
}
/// Each bound has a series.
proof fn lemma_scatter_fits(staging: Option<&StagingArea>, windows: Option<WindowSlots>)
    ensures
        all_fit(staging_readings(staging) + slot_readings(windows), scatter_series()),
{
    let list = scatter_series();
    let told = staging_readings(staging) + slot_readings(windows);
    assert forall|i: int| 0 <= i < told.len() implies fits(#[trigger] told[i], list) by {
        assert(list[7].name == SCATTER_STAGED_BYTES@);
        assert(list[8].name == SCATTER_STAGED_BYTES_PEAK@);
        assert(list[9].name == SCATTER_STAGING_BUDGET_BYTES@);
        assert(list[10].name == SCATTER_WINDOWS_IN_FLIGHT@);
        assert(list[11].name == SCATTER_WINDOWS_IN_FLIGHT_PEAK@);
        assert(list[12].name == SCATTER_WINDOWS_IN_FLIGHT_LIMIT@);
    }
}
/// A device has a series for what is read and one for what is written.
proof fn lemma_devices_fit(counters: Seq<DeviceCounters>)
    ensures
        all_fit(device_readings(counters), device_io_series()),
    decreases counters.len(),
{
    if counters.len() > 0 {
        lemma_devices_fit(counters.drop_last());
        let list = device_io_series();
        assert(list[0].name == NODE_DEVICE_READ_BYTES_TOTAL@);
        assert(list[1].name == NODE_DEVICE_WRITTEN_BYTES_TOTAL@);
    }
}
/// The numbers of a rail share a series.
proof fn lemma_rails_fit(rails: Seq<RailSample>)
    ensures
        all_fit(rails_readings(rails), rdma_series()),
    decreases rails.len(),
{
    if rails.len() > 0 {
        lemma_rails_fit(rails.drop_last());
        assert(rdma_series()[12].name == RDMA_RAIL@);
    }
}

/// The plane has a series for each of its numbers.
proof fn lemma_rdma_fits(sample: Option<&RdmaSample>)
    ensures
        all_fit(rdma_readings(sample), rdma_series()),
{
    if let Some(s) = sample {
        lemma_rails_fit(s.rails@);
        let list = rdma_series();
        assert(list[0].name == RDMA_HOLDER_COPY_SECONDS_TOTAL@);
        assert(list[1].name == RDMA_REQUESTER_COPY_SECONDS_TOTAL@);
        assert(list[2].name == RDMA_REQUESTER_SLOTS_IN_USE@);
        assert(list[3].name == RDMA_RAILS@);
        assert(list[4].name == RDMA_POST_BATCH_SECONDS_TOTAL@);
        assert(list[5].name == RDMA_WRITE_COMPLETION_WAIT_SECONDS_TOTAL@);
        assert(list[6].name == RDMA_CQ_ERRORS_TOTAL@);
        assert(list[7].name == RDMA_UNOBSERVED_COMPLETION_FAILURES_TOTAL@);
        assert(list[8].name == DELIVERY_UNKNOWN_PEER_RETRIES_TOTAL@);
        assert(list[9].name == DELIVERY_UNKNOWN_PEER_DECLINES_TOTAL@);
        assert(list[10].name == RDMA_WRITE_SOURCES_ORPHANED_TOTAL@);
        assert(list[11].name == RDMA_WRITE_SOURCES_HELD@);
        assert(list[14].name == EFA_CLIENT_AH_ENTRIES@);
        assert(list[15].name == EFA_CLIENT_READY_ENTRIES@);
        assert(list[16].name == EFA_ANNOUNCED_ENTRIES@);
        assert(list[13].name == EFA_CLIENT_EVICTIONS_TOTAL@);
        assert(all_fit(eviction_readings(s.evictions@), list));
        assert(all_fit(plane_readings(*s), list));
        assert(all_fit(client_edge_readings(*s), list));
    }
}

/// Whatever a scrape finds, each gauge that it sets is registered, is a gauge, and has as many
/// labels as it is given values. Without a reading of the RDMA plane no series of it is needed.
pub proof fn a_scrape_sets_what_is_registered(s: Samples<'_>, rdma: bool)
    requires
        s.rdma is Some ==> rdma,
    ensures
        all_fit(scrape_readings(s), all_of(node_groups(rdma))),
{
    let groups = node_groups(rdma);
    lemma_sockets_fit(s.tcp, s.tcp6);
    lemma_group_fits(socket_readings(s.tcp, s.tcp6), groups, 0);
    lemma_cgroup_fits(s.cgroup);
    lemma_group_fits(cgroup_readings(s.cgroup), groups, 5);
    lemma_malloc_fits(s.malloc);
    lemma_group_fits(malloc_readings(s.malloc), groups, 6);
    lemma_delivery_fits(s.pinned_bytes);
    lemma_group_fits(delivery_readings(s.pinned_bytes), groups, 10);
    lemma_scatter_fits(s.staging, s.windows);
    lemma_group_fits(staging_readings(s.staging) + slot_readings(s.windows), groups, 11);
    lemma_store_fits(s.store);
    lemma_group_fits(store_readings(s.store), groups, 14);
    lemma_devices_fit(s.devices@);
    lemma_group_fits(device_readings(s.devices@), groups, 15);
    if rdma {
        lemma_rdma_fits(s.rdma);
        lemma_group_fits(rdma_readings(s.rdma), groups, 1);
    }
}

/// Each part of the memory budget, and their total, has a series.
pub proof fn a_budget_sets_what_is_registered(terms: Seq<BudgetTerm>, total: u64, rdma: bool)
    ensures
        all_fit(
            term_readings(terms) + seq![told(MEMORY_BUDGET_TOTAL_BYTES, Amount::Count(total))],
            all_of(node_groups(rdma)),
        ),
{
    let list = memory_budget_series();
    assert(list[0].name == MEMORY_BUDGET_BYTES@);
    assert(list[1].name == MEMORY_BUDGET_TOTAL_BYTES@);
    let told = term_readings(terms) + seq![
        told(MEMORY_BUDGET_TOTAL_BYTES, Amount::Count(total)),
    ];
    assert(all_fit(told, list));
    lemma_group_fits(told, node_groups(rdma), 7);
}

/// The readings at the start have a series.
pub proof fn the_first_readings_are_registered(reasons: Seq<String>)
    ensures
        all_fit(nothing_evicted(reasons), all_of(node_groups(true))),
{
    let list = rdma_series();
    assert(list[13].name == EFA_CLIENT_EVICTIONS_TOTAL@);
    assert(all_fit(nothing_evicted(reasons), list));
    lemma_group_fits(nothing_evicted(reasons), node_groups(true), 1);
}

} // verus!
