//! No two series of a node share a name.
//!
//! Each name has a number that a few of its characters and its length give, and no two have
//! the same one. It tells where the series stands in the order of registration, so that no
//! name stands in two places.

use vstd::prelude::*;

use crate::metrics::{all_of, node_groups};
use crate::series::{
    backend_read_series, cache_path_series, cgroup_series, chunk_store_series, client_edge_series,
    delivery_series, device_io_series, fill_coalesce_series, fill_guard_series, listener_series,
    malloc_series, memory_budget_series, peer_path_series, preflight_series, process_series,
    rdma_series, scatter_bound_series, scatter_series, slab_series, window_outcome_series,
    Described,
};

verus! {

/// The names of a list of series.
pub open spec fn names_of(list: Seq<Described>) -> Seq<Seq<char>> {
    list.map_values(|d: Described| d.name)
}

/// The code of a character, and zero past the end.
spec fn code(name: Seq<char>, at: int) -> int {
    if at < name.len() {
        name[at] as int
    } else {
        0
    }
}

/// The number that tells the names apart.
#[verifier::opaque]
spec fn mark(name: Seq<char>) -> int {
    name.len() + code(name, 11) + 6 * code(name, 15) + 22 * code(name, 20) + 17 * code(
        name,
        23,
    )
}

/// Where the series with that mark stands in the order of registration.
#[verifier::opaque]
spec fn place(mark: int) -> int {
    if mark == 126 {
        0
    } else if mark == 733 {
        1
    } else if mark == 4987 {
        2
    } else if mark == 4887 {
        3
    } else if mark == 5223 {
        4
    } else if mark == 5051 {
        5
    } else if mark == 3269 {
        6
    } else if mark == 5165 {
        7
    } else if mark == 4753 {
        8
    } else if mark == 4730 {
        9
    } else if mark == 820 {
        10
    } else if mark == 4722 {
        11
    } else if mark == 5207 {
        12
    } else if mark == 4871 {
        13
    } else if mark == 4941 {
        14
    } else if mark == 5366 {
        15
    } else if mark == 5367 {
        16
    } else if mark == 5227 {
        17
    } else if mark == 5217 {
        18
    } else if mark == 129 {
        19
    } else if mark == 4901 {
        20
    } else if mark == 4991 {
        21
    } else if mark == 4751 {
        22
    } else if mark == 4957 {
        23
    } else if mark == 5027 {
        24
    } else if mark == 754 {
        25
    } else if mark == 4785 {
        26
    } else if mark == 2941 {
        27
    } else if mark == 5087 {
        28
    } else if mark == 4979 {
        29
    } else if mark == 5001 {
        30
    } else if mark == 4881 {
        31
    } else if mark == 5005 {
        32
    } else if mark == 5037 {
        33
    } else if mark == 5045 {
        34
    } else if mark == 5028 {
        35
    } else if mark == 4778 {
        36
    } else if mark == 5257 {
        37
    } else if mark == 3296 {
        38
    } else if mark == 5119 {
        39
    } else if mark == 3290 {
        40
    } else if mark == 4720 {
        41
    } else if mark == 4855 {
        42
    } else if mark == 4915 {
        43
    } else if mark == 4808 {
        44
    } else if mark == 4757 {
        45
    } else if mark == 4763 {
        46
    } else if mark == 4767 {
        47
    } else if mark == 4800 {
        48
    } else if mark == 4852 {
        49
    } else if mark == 4857 {
        50
    } else if mark == 3256 {
        51
    } else if mark == 4769 {
        52
    } else if mark == 4567 {
        53
    } else if mark == 5159 {
        54
    } else if mark == 4619 {
        55
    } else if mark == 4953 {
        56
    } else if mark == 4755 {
        57
    } else if mark == 4872 {
        58
    } else if mark == 4793 {
        59
    } else if mark == 4799 {
        60
    } else if mark == 743 {
        61
    } else if mark == 4820 {
        62
    } else if mark == 5085 {
        63
    } else if mark == 5091 {
        64
    } else if mark == 4765 {
        65
    } else if mark == 4725 {
        66
    } else if mark == 4959 {
        67
    } else if mark == 4777 {
        68
    } else if mark == 4789 {
        69
    } else if mark == 5139 {
        70
    } else if mark == 4496 {
        71
    } else if mark == 4592 {
        72
    } else if mark == 4642 {
        73
    } else if mark == 4647 {
        74
    } else if mark == 5337 {
        75
    } else if mark == 5343 {
        76
    } else if mark == 4989 {
        77
    } else if mark == 5057 {
        78
    } else if mark == 5105 {
        79
    } else if mark == 4929 {
        80
    } else if mark == 5175 {
        81
    } else if mark == 5042 {
        82
    } else if mark == 4690 {
        83
    } else if mark == 5083 {
        84
    } else if mark == 5169 {
        85
    } else if mark == 4885 {
        86
    } else if mark == 4890 {
        87
    } else if mark == 5086 {
        88
    } else if mark == 5162 {
        89
    } else if mark == 5167 {
        90
    } else if mark == 5168 {
        91
    } else if mark == 4895 {
        92
    } else if mark == 4549 {
        93
    } else if mark == 5177 {
        94
    } else if mark == 4835 {
        95
    } else if mark == 4833 {
        96
    } else if mark == 4726 {
        97
    } else if mark == 2927 {
        98
    } else if mark == 5331 {
        99
    } else if mark == 5294 {
        100
    } else if mark == 4613 {
        101
    } else if mark == 4843 {
        102
    } else if mark == 4903 {
        103
    } else if mark == 4902 {
        104
    } else if mark == 5008 {
        105
    } else if mark == 5009 {
        106
    } else if mark == 4904 {
        107
    } else if mark == 5007 {
        108
    } else if mark == 4652 {
        109
    } else if mark == 5074 {
        110
    } else if mark == 4740 {
        111
    } else if mark == 4907 {
        112
    } else if mark == 5264 {
        113
    } else if mark == 4780 {
        114
    } else if mark == 5228 {
        115
    } else if mark == 4840 {
        116
    } else if mark == 4864 {
        117
    } else if mark == 4868 {
        118
    } else if mark == 4898 {
        119
    } else if mark == 4883 {
        120
    } else if mark == 4528 {
        121
    } else if mark == 4758 {
        122
    } else {
        -1
    }
}

/// Whether the series of a list stand one after the other from `from` on.
spec fn placed(list: Seq<Described>, from: int) -> bool {
    forall|i: int| 0 <= i < list.len() ==> place(mark((#[trigger] list[i]).name)) == from + i
}

/// Whether the places of a list rise, from `low` on and below `high`.
spec fn rising(list: Seq<Described>, low: int, high: int) -> bool {
    &&& low <= high
    &&& forall|i: int|
        0 <= i < list.len() ==> low <= place(mark((#[trigger] list[i]).name)) < high
    &&& forall|i: int, j: int|
        0 <= i < j < list.len() ==> place(mark((#[trigger] list[i]).name)) < place(
            mark((#[trigger] list[j]).name),
        )
}

/// A list that goes on where another ends.
proof fn lemma_joined(front: Seq<Described>, back: Seq<Described>, from: int)
    requires
        placed(front, from),
        placed(back, from + front.len()),
    ensures
        placed(front + back, from),
{
    let all = front + back;
    assert forall|i: int| 0 <= i < all.len() implies place(mark((#[trigger] all[i]).name)) == from
        + i by {
        if i < front.len() {
            assert(all[i] == front[i]);
        } else {
            assert(all[i] == back[i - front.len()]);
        }
    }
}

/// A list that stands one after the other rises.
proof fn lemma_placed_rises(list: Seq<Described>, from: int)
    requires
        placed(list, from),
    ensures
        rising(list, from, from + list.len()),
{
}

/// Lists that rise one above the other rise together.
proof fn lemma_rising(groups: Seq<Seq<Described>>, bounds: Seq<int>)
    requires
        bounds.len() == groups.len() + 1,
        forall|k: int|
            0 <= k < groups.len() ==> rising(#[trigger] groups[k], bounds[k], bounds[k + 1]),
    ensures
        rising(all_of(groups), bounds[0], bounds[groups.len() as int]),
    decreases groups.len(),
{
    if groups.len() > 0 {
        let front = groups.drop_last();
        let n = front.len() as int;
        assert forall|k: int| 0 <= k < front.len() implies rising(
            #[trigger] front[k],
            bounds.drop_last()[k],
            bounds.drop_last()[k + 1],
        ) by {
            assert(front[k] == groups[k]);
        }
        lemma_rising(front, bounds.drop_last());
        let low = all_of(front);
        let high = groups[n];
        let all = low + high;
        assert(all_of(groups) == all);
        assert(rising(high, bounds[n], bounds[n + 1]));
        assert forall|i: int| 0 <= i < all.len() implies bounds[0] <= place(
            mark((#[trigger] all[i]).name),
        ) < bounds[n + 1] by {
            if i < low.len() {
                assert(all[i] == low[i]);
            } else {
                assert(all[i] == high[i - low.len()]);
            }
        }
        assert forall|i: int, j: int| 0 <= i < j < all.len() implies place(
            mark((#[trigger] all[i]).name),
        ) < place(mark((#[trigger] all[j]).name)) by {
            if i < low.len() {
                assert(all[i] == low[i]);
            } else {
                assert(all[i] == high[i - low.len()]);
            }
            if j < low.len() {
                assert(all[j] == low[j]);
            } else {
                assert(all[j] == high[j - low.len()]);
            }
        }
    }
}

/// The series of the node as a whole stand in their places.
proof fn lemma_process_series()
    ensures
        process_series().len() == 7,
        placed(process_series(), 0),
{
    reveal(mark);
    reveal(place);
    reveal_strlit("pacer_ops_total");
    reveal_strlit("pacer_ring_members");
    reveal_strlit("process_cpu_seconds_total");
    reveal_strlit("process_resident_memory_bytes");
    reveal_strlit("pacer_backend_connections");
    reveal_strlit("pacer_backend_peer_endpoints");
    reveal_strlit("pacer_dir_rpc_seconds");
    assert(mark("pacer_ops_total"@) == 126);
    assert(mark("pacer_ring_members"@) == 733);
    assert(mark("process_cpu_seconds_total"@) == 4987);
    assert(mark("process_resident_memory_bytes"@) == 4887);
    assert(mark("pacer_backend_connections"@) == 5223);
    assert(mark("pacer_backend_peer_endpoints"@) == 5051);
    assert(mark("pacer_dir_rpc_seconds"@) == 3269);
    let list = process_series();
    assert(placed(list, 0));
}

/// The series of the RDMA plane stand in their places.
proof fn lemma_rdma_series()
    ensures
        rdma_series().len() == 17,
        placed(rdma_series(), 7),
{
    reveal(mark);
    reveal(place);
    reveal_strlit("pacer_rdma_holder_copy_seconds_total");
    reveal_strlit("pacer_rdma_requester_copy_seconds_total");
    reveal_strlit("pacer_rdma_requester_slots_in_use");
    reveal_strlit("pacer_rdma_rails");
    reveal_strlit("pacer_rdma_post_batch_seconds_total");
    reveal_strlit("pacer_rdma_write_completion_wait_seconds_total");
    reveal_strlit("pacer_rdma_cq_errors_total");
    reveal_strlit("pacer_rdma_unobserved_completion_failures_total");
    reveal_strlit("pacer_delivery_unknown_peer_retries_total");
    reveal_strlit("pacer_delivery_unknown_peer_declines_total");
    reveal_strlit("pacer_rdma_write_sources_orphaned_total");
    reveal_strlit("pacer_rdma_write_sources_held");
    reveal_strlit("pacer_rdma_rail");
    assert(mark("pacer_rdma_holder_copy_seconds_total"@) == 5165);
    assert(mark("pacer_rdma_requester_copy_seconds_total"@) == 4753);
    assert(mark("pacer_rdma_requester_slots_in_use"@) == 4730);
    assert(mark("pacer_rdma_rails"@) == 820);
    assert(mark("pacer_rdma_post_batch_seconds_total"@) == 4722);
    assert(mark("pacer_rdma_write_completion_wait_seconds_total"@) == 5207);
    assert(mark("pacer_rdma_cq_errors_total"@) == 4871);
    assert(mark("pacer_rdma_unobserved_completion_failures_total"@) == 4941);
    assert(mark("pacer_delivery_unknown_peer_retries_total"@) == 5366);
    assert(mark("pacer_delivery_unknown_peer_declines_total"@) == 5367);
    assert(mark("pacer_rdma_write_sources_orphaned_total"@) == 5227);
    assert(mark("pacer_rdma_write_sources_held"@) == 5217);
    assert(mark("pacer_rdma_rail"@) == 129);
    let list = rdma_series().subrange(0, 13);
    assert(placed(list, 7));
    lemma_client_edge_series();
    lemma_joined(list, client_edge_series(), 7);
    assert(rdma_series() =~= list + client_edge_series());
}

/// The series of the clients that the RDMA plane writes to stand in their places.
proof fn lemma_client_edge_series()
    ensures
        client_edge_series().len() == 4,
        placed(client_edge_series(), 20),
{
    reveal(mark);
    reveal(place);
    reveal_strlit("pacer_efa_client_evictions_total");
    reveal_strlit("pacer_efa_client_ah_entries");
    reveal_strlit("pacer_efa_client_ready_entries");
    reveal_strlit("pacer_efa_announced_entries");
    assert(mark("pacer_efa_client_evictions_total"@) == 4901);
    assert(mark("pacer_efa_client_ah_entries"@) == 4991);
    assert(mark("pacer_efa_client_ready_entries"@) == 4751);
    assert(mark("pacer_efa_announced_entries"@) == 4957);
    let list = client_edge_series();
    assert(placed(list, 20));
}

/// The series of the fills under way stand in their places.
proof fn lemma_fill_guard_series()
    ensures
        fill_guard_series().len() == 3,
        placed(fill_guard_series(), 24),
{
    reveal(mark);
    reveal(place);
    reveal_strlit("pacer_local_admits_total");
    reveal_strlit("pacer_fill_inflight");
    reveal_strlit("pacer_fill_abandoned_total");
    assert(mark("pacer_local_admits_total"@) == 5027);
    assert(mark("pacer_fill_inflight"@) == 754);
    assert(mark("pacer_fill_abandoned_total"@) == 4785);
    let list = fill_guard_series();
    assert(placed(list, 24));
}

/// The series of the reads, as the cache sees them, stand in their places.
proof fn lemma_cache_path_series()
    ensures
        cache_path_series().len() == 8,
        placed(cache_path_series(), 27),
{
    reveal(mark);
    reveal(place);
    reveal_strlit("pacer_cache_hits_total");
    reveal_strlit("pacer_cache_misses_total");
    reveal_strlit("pacer_cache_bypass_total");
    reveal_strlit("pacer_conditional_get_served_total");
    reveal_strlit("pacer_fills_completed_total");
    reveal_strlit("pacer_fills_aborted_total");
    reveal_strlit("pacer_bytes_from_cache_total");
    reveal_strlit("pacer_bytes_filled_total");
    assert(mark("pacer_cache_hits_total"@) == 2941);
    assert(mark("pacer_cache_misses_total"@) == 5087);
    assert(mark("pacer_cache_bypass_total"@) == 4979);
    assert(mark("pacer_conditional_get_served_total"@) == 5001);
    assert(mark("pacer_fills_completed_total"@) == 4881);
    assert(mark("pacer_fills_aborted_total"@) == 5005);
    assert(mark("pacer_bytes_from_cache_total"@) == 5037);
    assert(mark("pacer_bytes_filled_total"@) == 5045);
    let list = cache_path_series();
    assert(placed(list, 27));
}

/// The series of the chunks that nodes ask of one another stand in their places.
proof fn lemma_peer_path_series()
    ensures
        peer_path_series().len() == 8,
        placed(peer_path_series(), 35),
{
    reveal(mark);
    reveal(place);
    reveal_strlit("pacer_peer_fetches_total");
    reveal_strlit("pacer_peer_fallbacks_total");
    reveal_strlit("pacer_bytes_from_peers_total");
    reveal_strlit("pacer_peer_serves_total");
    reveal_strlit("pacer_peer_serves_rdma_total");
    reveal_strlit("pacer_peer_misses_total");
    reveal_strlit("pacer_peer_readthroughs_total");
    reveal_strlit("pacer_bytes_to_peers_total");
    assert(mark("pacer_peer_fetches_total"@) == 5028);
    assert(mark("pacer_peer_fallbacks_total"@) == 4778);
    assert(mark("pacer_bytes_from_peers_total"@) == 5257);
    assert(mark("pacer_peer_serves_total"@) == 3296);
    assert(mark("pacer_peer_serves_rdma_total"@) == 5119);
    assert(mark("pacer_peer_misses_total"@) == 3290);
    assert(mark("pacer_peer_readthroughs_total"@) == 4720);
    assert(mark("pacer_bytes_to_peers_total"@) == 4855);
    let list = peer_path_series();
    assert(placed(list, 35));
}

/// The series of the control group that the node runs in stand in their places.
proof fn lemma_cgroup_series()
    ensures
        cgroup_series().len() == 8,
        placed(cgroup_series(), 43),
{
    reveal(mark);
    reveal(place);
    reveal_strlit("pacer_cgroup_memory_current_bytes");
    reveal_strlit("pacer_cgroup_memory_max_bytes");
    reveal_strlit("pacer_cgroup_memory_file_bytes");
    reveal_strlit("pacer_cgroup_memory_file_dirty_bytes");
    reveal_strlit("pacer_cgroup_memory_file_writeback_bytes");
    reveal_strlit("pacer_cgroup_memory_anon_bytes");
    reveal_strlit("pacer_cgroup_memory_oom_total");
    reveal_strlit("pacer_cgroup_memory_oom_kill_total");
    assert(mark("pacer_cgroup_memory_current_bytes"@) == 4915);
    assert(mark("pacer_cgroup_memory_max_bytes"@) == 4808);
    assert(mark("pacer_cgroup_memory_file_bytes"@) == 4757);
    assert(mark("pacer_cgroup_memory_file_dirty_bytes"@) == 4763);
    assert(mark("pacer_cgroup_memory_file_writeback_bytes"@) == 4767);
    assert(mark("pacer_cgroup_memory_anon_bytes"@) == 4800);
    assert(mark("pacer_cgroup_memory_oom_total"@) == 4852);
    assert(mark("pacer_cgroup_memory_oom_kill_total"@) == 4857);
    let list = cgroup_series();
    assert(placed(list, 43));
}

/// The series of the allocator stand in their places.
proof fn lemma_malloc_series()
    ensures
        malloc_series().len() == 4,
        placed(malloc_series(), 51),
{
    reveal(mark);
    reveal(place);
    reveal_strlit("pacer_malloc_heap_bytes");
    reveal_strlit("pacer_malloc_mmapped_bytes");
    reveal_strlit("pacer_malloc_in_use_bytes");
    reveal_strlit("pacer_malloc_free_retained_bytes");
    assert(mark("pacer_malloc_heap_bytes"@) == 3256);
    assert(mark("pacer_malloc_mmapped_bytes"@) == 4769);
    assert(mark("pacer_malloc_in_use_bytes"@) == 4567);
    assert(mark("pacer_malloc_free_retained_bytes"@) == 5159);
    let list = malloc_series();
    assert(placed(list, 51));
}

/// The series of the memory that the node may need stand in their places.
proof fn lemma_memory_budget_series()
    ensures
        memory_budget_series().len() == 2,
        placed(memory_budget_series(), 55),
{
    reveal(mark);
    reveal(place);
    reveal_strlit("pacer_memory_budget_bytes");
    reveal_strlit("pacer_memory_budget_total_bytes");
    assert(mark("pacer_memory_budget_bytes"@) == 4619);
    assert(mark("pacer_memory_budget_total_bytes"@) == 4953);
    let list = memory_budget_series();
    assert(placed(list, 55));
}

/// The series of the reads from the backend stand in their places.
proof fn lemma_backend_read_series()
    ensures
        backend_read_series().len() == 2,
        placed(backend_read_series(), 57),
{
    reveal(mark);
    reveal(place);
    reveal_strlit("pacer_backend_read_retries_total");
    reveal_strlit("pacer_backend_read_failures_total");
    assert(mark("pacer_backend_read_retries_total"@) == 4755);
    assert(mark("pacer_backend_read_failures_total"@) == 4872);
    let list = backend_read_series();
    assert(placed(list, 57));
}

/// The series of the reads that wait for another fill stand in their places.
proof fn lemma_fill_coalesce_series()
    ensures
        fill_coalesce_series().len() == 4,
        placed(fill_coalesce_series(), 59),
{
    reveal(mark);
    reveal(place);
    reveal_strlit("pacer_fill_coalesced_total");
    reveal_strlit("pacer_fill_coalesced_bytes_total");
    reveal_strlit("pacer_fill_waiters");
    reveal_strlit("pacer_fill_coalesce_fallbacks_total");
    assert(mark("pacer_fill_coalesced_total"@) == 4793);
    assert(mark("pacer_fill_coalesced_bytes_total"@) == 4799);
    assert(mark("pacer_fill_waiters"@) == 743);
    assert(mark("pacer_fill_coalesce_fallbacks_total"@) == 4820);
    let list = fill_coalesce_series();
    assert(placed(list, 59));
}

/// The series of the questions for endpoints stand in their places.
proof fn lemma_preflight_series()
    ensures
        preflight_series().len() == 2,
        placed(preflight_series(), 63),
{
    reveal(mark);
    reveal(place);
    reveal_strlit("pacer_delivery_preflight_total");
    reveal_strlit("pacer_delivery_preflight_nodes_total");
    assert(mark("pacer_delivery_preflight_total"@) == 5085);
    assert(mark("pacer_delivery_preflight_nodes_total"@) == 5091);
    let list = preflight_series();
    assert(placed(list, 63));
}

/// The series of the windows that were not delivered stand in their places.
proof fn lemma_window_outcome_series()
    ensures
        window_outcome_series().len() == 2,
        placed(window_outcome_series(), 65),
{
    reveal(mark);
    reveal(place);
    reveal_strlit("pacer_delivery_declines_total");
    reveal_strlit("pacer_delivery_write_failures_total");
    assert(mark("pacer_delivery_declines_total"@) == 4765);
    assert(mark("pacer_delivery_write_failures_total"@) == 4725);
    let list = window_outcome_series();
    assert(placed(list, 65));
}

/// The series of the deliveries into client memory stand in their places.
proof fn lemma_delivery_series()
    ensures
        delivery_series().len() == 16,
        placed(delivery_series(), 63),
{
    reveal(mark);
    reveal(place);
    reveal_strlit("pacer_delivery_requests_total");
    reveal_strlit("pacer_delivery_bytes_total");
    reveal_strlit("pacer_delivery_chunk_bytes_total");
    reveal_strlit("pacer_delivery_chunks_total");
    reveal_strlit("pacer_delivery_chunk_seconds");
    reveal_strlit("pacer_delivery_stage_seconds");
    reveal_strlit("pacer_delivery_inflight_chunks");
    reveal_strlit("pacer_delivery_inflight_chunks_peak");
    reveal_strlit("pacer_delivery_rejects_total");
    reveal_strlit("pacer_delivery_registrations_total");
    reveal_strlit("pacer_delivery_register_seconds_total");
    reveal_strlit("pacer_delivery_pinned_bytes");
    assert(mark("pacer_delivery_requests_total"@) == 4959);
    assert(mark("pacer_delivery_bytes_total"@) == 4777);
    assert(mark("pacer_delivery_chunk_bytes_total"@) == 4789);
    assert(mark("pacer_delivery_chunks_total"@) == 5139);
    assert(mark("pacer_delivery_chunk_seconds"@) == 4496);
    assert(mark("pacer_delivery_stage_seconds"@) == 4592);
    assert(mark("pacer_delivery_inflight_chunks"@) == 4642);
    assert(mark("pacer_delivery_inflight_chunks_peak"@) == 4647);
    assert(mark("pacer_delivery_rejects_total"@) == 5337);
    assert(mark("pacer_delivery_registrations_total"@) == 5343);
    assert(mark("pacer_delivery_register_seconds_total"@) == 4989);
    assert(mark("pacer_delivery_pinned_bytes"@) == 5057);
    let list = delivery_series().subrange(4, 16);
    assert(placed(list, 67));
    lemma_preflight_series();
    lemma_window_outcome_series();
    lemma_joined(preflight_series(), window_outcome_series(), 63);
    lemma_joined(preflight_series() + window_outcome_series(), list, 63);
    assert(delivery_series() =~= preflight_series() + window_outcome_series() + list);
}

/// The series of the scattered writes stand in their places.
proof fn lemma_scatter_series()
    ensures
        scatter_series().len() == 13,
        placed(scatter_series(), 79),
{
    reveal(mark);
    reveal(place);
    reveal_strlit("pacer_scatter_puts_total");
    reveal_strlit("pacer_scatter_declined_total");
    reveal_strlit("pacer_scatter_windows_total");
    reveal_strlit("pacer_scatter_uncached_windows_total");
    reveal_strlit("pacer_scatter_owners_engaged_total");
    reveal_strlit("pacer_scatter_refusals_total");
    reveal_strlit("pacer_scatter_phase_seconds");
    assert(mark("pacer_scatter_puts_total"@) == 5105);
    assert(mark("pacer_scatter_declined_total"@) == 4929);
    assert(mark("pacer_scatter_windows_total"@) == 5175);
    assert(mark("pacer_scatter_uncached_windows_total"@) == 5042);
    assert(mark("pacer_scatter_owners_engaged_total"@) == 4690);
    assert(mark("pacer_scatter_refusals_total"@) == 5083);
    assert(mark("pacer_scatter_phase_seconds"@) == 5169);
    let list = scatter_series().subrange(0, 7);
    assert(placed(list, 79));
    lemma_scatter_bound_series();
    lemma_joined(list, scatter_bound_series(), 79);
    assert(scatter_series() =~= list + scatter_bound_series());
}

/// The series of the bounds that scattered writes keep stand in their places.
proof fn lemma_scatter_bound_series()
    ensures
        scatter_bound_series().len() == 6,
        placed(scatter_bound_series(), 86),
{
    reveal(mark);
    reveal(place);
    reveal_strlit("pacer_scatter_staged_bytes");
    reveal_strlit("pacer_scatter_staged_bytes_peak");
    reveal_strlit("pacer_scatter_staging_budget_bytes");
    reveal_strlit("pacer_scatter_windows_in_flight");
    reveal_strlit("pacer_scatter_windows_in_flight_peak");
    reveal_strlit("pacer_scatter_windows_in_flight_limit");
    assert(mark("pacer_scatter_staged_bytes"@) == 4885);
    assert(mark("pacer_scatter_staged_bytes_peak"@) == 4890);
    assert(mark("pacer_scatter_staging_budget_bytes"@) == 5086);
    assert(mark("pacer_scatter_windows_in_flight"@) == 5162);
    assert(mark("pacer_scatter_windows_in_flight_peak"@) == 5167);
    assert(mark("pacer_scatter_windows_in_flight_limit"@) == 5168);
    let list = scatter_bound_series();
    assert(placed(list, 86));
}

/// The series of the listener stand in their places.
proof fn lemma_listener_series()
    ensures
        listener_series().len() == 3,
        placed(listener_series(), 92),
{
    reveal(mark);
    reveal(place);
    reveal_strlit("pacer_s3_connections_active");
    reveal_strlit("pacer_s3_connections_at_capacity_total");
    reveal_strlit("pacer_s3_accept_errors_total");
    assert(mark("pacer_s3_connections_active"@) == 4895);
    assert(mark("pacer_s3_connections_at_capacity_total"@) == 4549);
    assert(mark("pacer_s3_accept_errors_total"@) == 5177);
    let list = listener_series();
    assert(placed(list, 92));
}

/// The series of the frames that bodies are held in stand in their places.
proof fn lemma_slab_series()
    ensures
        slab_series().len() == 4,
        placed(slab_series(), 95),
{
    reveal(mark);
    reveal(place);
    reveal_strlit("pacer_cache_slab_stores_total");
    reveal_strlit("pacer_cache_slab_heap_fallbacks_total");
    reveal_strlit("pacer_cache_slab_frames_in_use");
    reveal_strlit("pacer_cache_slab_bytes");
    assert(mark("pacer_cache_slab_stores_total"@) == 4835);
    assert(mark("pacer_cache_slab_heap_fallbacks_total"@) == 4833);
    assert(mark("pacer_cache_slab_frames_in_use"@) == 4726);
    assert(mark("pacer_cache_slab_bytes"@) == 2927);
    let list = slab_series();
    assert(placed(list, 95));
}

/// The series of the chunk store stand in their places.
proof fn lemma_chunk_store_series()
    ensures
        chunk_store_series().len() == 22,
        placed(chunk_store_series(), 99),
{
    reveal(mark);
    reveal(place);
    reveal_strlit("pacer_chunk_store_hits_total");
    reveal_strlit("pacer_chunk_store_misses_total");
    reveal_strlit("pacer_chunk_store_read_bytes_total");
    reveal_strlit("pacer_chunk_store_written_bytes_total");
    reveal_strlit("pacer_chunk_store_read_seconds_mean");
    reveal_strlit("pacer_chunk_store_read_seconds_max");
    reveal_strlit("pacer_chunk_store_service_seconds_mean");
    reveal_strlit("pacer_chunk_store_service_seconds_total");
    reveal_strlit("pacer_chunk_store_read_seconds_total");
    reveal_strlit("pacer_chunk_store_service_seconds_max");
    reveal_strlit("pacer_chunk_store_queue_seconds_mean");
    reveal_strlit("pacer_chunk_store_writes_total");
    reveal_strlit("pacer_chunk_store_write_dedups_total");
    reveal_strlit("pacer_chunk_store_evictions_total");
    reveal_strlit("pacer_chunk_store_key_mismatches_total");
    reveal_strlit("pacer_chunk_store_crc_mismatches_total");
    reveal_strlit("pacer_chunk_store_corrupt_slots_total");
    reveal_strlit("pacer_chunk_store_io_errors_total");
    reveal_strlit("pacer_chunk_store_slots_used");
    reveal_strlit("pacer_chunk_store_slots_capacity");
    reveal_strlit("pacer_chunk_store_scan_seconds");
    reveal_strlit("pacer_chunk_store_scan_recovered");
    assert(mark("pacer_chunk_store_hits_total"@) == 5331);
    assert(mark("pacer_chunk_store_misses_total"@) == 5294);
    assert(mark("pacer_chunk_store_read_bytes_total"@) == 4613);
    assert(mark("pacer_chunk_store_written_bytes_total"@) == 4843);
    assert(mark("pacer_chunk_store_read_seconds_mean"@) == 4903);
    assert(mark("pacer_chunk_store_read_seconds_max"@) == 4902);
    assert(mark("pacer_chunk_store_service_seconds_mean"@) == 5008);
    assert(mark("pacer_chunk_store_service_seconds_total"@) == 5009);
    assert(mark("pacer_chunk_store_read_seconds_total"@) == 4904);
    assert(mark("pacer_chunk_store_service_seconds_max"@) == 5007);
    assert(mark("pacer_chunk_store_queue_seconds_mean"@) == 4652);
    assert(mark("pacer_chunk_store_writes_total"@) == 5074);
    assert(mark("pacer_chunk_store_write_dedups_total"@) == 4740);
    assert(mark("pacer_chunk_store_evictions_total"@) == 4907);
    assert(mark("pacer_chunk_store_key_mismatches_total"@) == 5264);
    assert(mark("pacer_chunk_store_crc_mismatches_total"@) == 4780);
    assert(mark("pacer_chunk_store_corrupt_slots_total"@) == 5228);
    assert(mark("pacer_chunk_store_io_errors_total"@) == 4840);
    assert(mark("pacer_chunk_store_slots_used"@) == 4864);
    assert(mark("pacer_chunk_store_slots_capacity"@) == 4868);
    assert(mark("pacer_chunk_store_scan_seconds"@) == 4898);
    assert(mark("pacer_chunk_store_scan_recovered"@) == 4883);
    let list = chunk_store_series();
    assert(placed(list, 99));
}

/// The series of the block devices under the cache stand in their places.
proof fn lemma_device_io_series()
    ensures
        device_io_series().len() == 2,
        placed(device_io_series(), 121),
{
    reveal(mark);
    reveal(place);
    reveal_strlit("pacer_node_device_read_bytes_total");
    reveal_strlit("pacer_node_device_written_bytes_total");
    assert(mark("pacer_node_device_read_bytes_total"@) == 4528);
    assert(mark("pacer_node_device_written_bytes_total"@) == 4758);
    let list = device_io_series();
    assert(placed(list, 121));
}

/// No two series of a node share a name, with the RDMA plane or without it.
pub proof fn no_two_series_share_a_name(rdma: bool)
    ensures
        names_of(all_of(node_groups(rdma))).no_duplicates(),
{
    lemma_process_series();
    lemma_placed_rises(process_series(), 0);
    lemma_rdma_series();
    lemma_placed_rises(rdma_series(), 7);
    lemma_fill_guard_series();
    lemma_placed_rises(fill_guard_series(), 24);
    lemma_cache_path_series();
    lemma_placed_rises(cache_path_series(), 27);
    lemma_peer_path_series();
    lemma_placed_rises(peer_path_series(), 35);
    lemma_cgroup_series();
    lemma_placed_rises(cgroup_series(), 43);
    lemma_malloc_series();
    lemma_placed_rises(malloc_series(), 51);
    lemma_memory_budget_series();
    lemma_placed_rises(memory_budget_series(), 55);
    lemma_backend_read_series();
    lemma_placed_rises(backend_read_series(), 57);
    lemma_fill_coalesce_series();
    lemma_placed_rises(fill_coalesce_series(), 59);
    lemma_delivery_series();
    lemma_placed_rises(delivery_series(), 63);
    lemma_scatter_series();
    lemma_placed_rises(scatter_series(), 79);
    lemma_listener_series();
    lemma_placed_rises(listener_series(), 92);
    lemma_slab_series();
    lemma_placed_rises(slab_series(), 95);
    lemma_chunk_store_series();
    lemma_placed_rises(chunk_store_series(), 99);
    lemma_device_io_series();
    lemma_placed_rises(device_io_series(), 121);
    let groups = node_groups(rdma);
    let bounds: Seq<int> = seq![0, 7, 24, 27, 35, 43, 51, 55, 57, 59, 63, 79, 92, 95, 99, 121, 123];
    assert(rising(groups[0], 0, 7));
    assert(rising(groups[1], 7, 24));
    assert(rising(groups[2], 24, 27));
    assert(rising(groups[3], 27, 35));
    assert(rising(groups[4], 35, 43));
    assert(rising(groups[5], 43, 51));
    assert(rising(groups[6], 51, 55));
    assert(rising(groups[7], 55, 57));
    assert(rising(groups[8], 57, 59));
    assert(rising(groups[9], 59, 63));
    assert(rising(groups[10], 63, 79));
    assert(rising(groups[11], 79, 92));
    assert(rising(groups[12], 92, 95));
    assert(rising(groups[13], 95, 99));
    assert(rising(groups[14], 99, 121));
    assert(rising(groups[15], 121, 123));
    lemma_rising(groups, bounds);
    let list = all_of(groups);
    let names = names_of(list);
    assert forall|i: int, j: int| 0 <= i < names.len() && 0 <= j < names.len() && i != j implies
        names[i] != names[j] by {
        assert(names[i] == list[i].name && names[j] == list[j].name);
        assert(place(mark(list[i].name)) != place(mark(list[j].name)));
    }
}

} // verus!
