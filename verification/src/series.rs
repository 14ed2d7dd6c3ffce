//! The series that a node publishes: their names, their help texts, their kinds, the names
//! of their labels and the edges of their buckets.
//!
//! A series is described here and made where floating-point numbers are. An edge is a
//! number of nanoseconds.

use vstd::prelude::*;

verus! {

/// How a series counts.
#[derive(Clone, Copy, Debug, PartialEq, Eq, Structural)]
pub enum SeriesKind {
    /// A whole number that only grows.
    Counter,
    /// A number that only grows.
    FloatCounter,
    /// A number.
    Gauge,
    /// A whole number.
    IntGauge,
    /// A whole number that only grows, for each set of label values.
    CounterVec,
    /// A number, for each set of label values.
    GaugeVec,
    /// How many observations lie under each edge, for each set of label values.
    HistogramVec,
}

impl SeriesKind {
    /// Whether a series of this kind is set to what a scrape finds.
    pub open spec fn is_gauge(self) -> bool {
        self is Gauge || self is IntGauge || self is GaugeVec
    }
}

/// A series as it is registered.
#[derive(Debug)]
pub struct Series {
    /// What it is scraped under.
    pub name: &'static str,
    /// What it says of itself.
    pub help: &'static str,
    /// How it counts.
    pub kind: SeriesKind,
    /// The names of its labels.
    pub labels: Vec<&'static str>,
    /// The upper edges of its buckets, in nanoseconds.
    pub edges: Vec<u64>,
}

/// What a series is.
pub struct Described {
    pub name: Seq<char>,
    pub help: Seq<char>,
    pub kind: SeriesKind,
    pub labels: Seq<Seq<char>>,
    pub edges: Seq<u64>,
}

impl View for Series {
    type V = Described;

    open spec fn view(&self) -> Described {
        Described {
            name: self.name@,
            help: self.help@,
            kind: self.kind,
            labels: label_names(self.labels@),
            edges: self.edges@,
        }
    }
}

/// What each series of a list is.
pub open spec fn listed(list: Seq<Series>) -> Seq<Described> {
    list.map_values(|s: Series| s@)
}

/// A series without labels and buckets.
pub open spec fn plain(kind: SeriesKind, name: &str, help: &str) -> Described {
    Described {
        name: name@,
        help: help@,
        kind,
        labels: Seq::<Seq<char>>::empty(),
        edges: Seq::<u64>::empty(),
    }
}

/// A series with labels.
pub open spec fn labelled(
    kind: SeriesKind,
    name: &str,
    help: &str,
    labels: Seq<Seq<char>>,
    edges: Seq<u64>,
) -> Described {
    Described { name: name@, help: help@, kind, labels, edges }
}

/// A series without labels and buckets.
fn unlabelled(kind: SeriesKind, name: &'static str, help: &'static str) -> (s: Series)
    ensures
        s@ == plain(kind, name, help),
{
    let s = Series { name, help, kind, labels: Vec::new(), edges: Vec::new() };
    assert(s@.labels =~= Seq::<Seq<char>>::empty());
    s
}

/// A counter.
fn counter(name: &'static str, help: &'static str) -> (s: Series)
    ensures
        s@ == plain(SeriesKind::Counter, name, help),
{
    unlabelled(SeriesKind::Counter, name, help)
}

/// A counter of a number that need not be whole.
fn float_counter(name: &'static str, help: &'static str) -> (s: Series)
    ensures
        s@ == plain(SeriesKind::FloatCounter, name, help),
{
    unlabelled(SeriesKind::FloatCounter, name, help)
}

/// A gauge.
fn gauge(name: &'static str, help: &'static str) -> (s: Series)
    ensures
        s@ == plain(SeriesKind::Gauge, name, help),
{
    unlabelled(SeriesKind::Gauge, name, help)
}

/// A gauge of a whole number.
fn int_gauge(name: &'static str, help: &'static str) -> (s: Series)
    ensures
        s@ == plain(SeriesKind::IntGauge, name, help),
{
    unlabelled(SeriesKind::IntGauge, name, help)
}

/// What each label name of a list says.
pub open spec fn label_names(labels: Seq<&'static str>) -> Seq<Seq<char>> {
    labels.map_values(|l: &'static str| l@)
}

/// The name of one label.
fn one(a: &'static str) -> (r: Vec<&'static str>)
    ensures
        label_names(r@) == seq![a@],
{
    let r = vec![a];
    assert(label_names(r@) =~= seq![a@]);
    r
}

/// The names of two labels.
fn two(a: &'static str, b: &'static str) -> (r: Vec<&'static str>)
    ensures
        label_names(r@) == seq![a@, b@],
{
    let r = vec![a, b];
    assert(label_names(r@) =~= seq![a@, b@]);
    r
}

/// The names of three labels.
fn three(a: &'static str, b: &'static str, c: &'static str) -> (r: Vec<&'static str>)
    ensures
        label_names(r@) == seq![a@, b@, c@],
{
    let r = vec![a, b, c];
    assert(label_names(r@) =~= seq![a@, b@, c@]);
    r
}

/// A counter for each set of label values.
fn int_counter_vec(name: &'static str, help: &'static str, labels: Vec<&'static str>) -> (s: Series)
    ensures
        s@ == labelled(
            SeriesKind::CounterVec,
            name,
            help,
            label_names(labels@),
            Seq::<u64>::empty(),
        ),
{
    Series { name, help, kind: SeriesKind::CounterVec, labels, edges: Vec::new() }
}

/// A gauge for each set of label values.
fn gauge_vec(name: &'static str, help: &'static str, labels: Vec<&'static str>) -> (s: Series)
    ensures
        s@ == labelled(
            SeriesKind::GaugeVec,
            name,
            help,
            label_names(labels@),
            Seq::<u64>::empty(),
        ),
{
    Series { name, help, kind: SeriesKind::GaugeVec, labels, edges: Vec::new() }
}

/// A histogram for each set of label values.
fn histogram_vec(
    name: &'static str,
    help: &'static str,
    labels: Vec<&'static str>,
    edges: Vec<u64>,
) -> (s: Series)
    ensures
        s@ == labelled(SeriesKind::HistogramVec, name, help, label_names(labels@), edges@),
{
    Series { name, help, kind: SeriesKind::HistogramVec, labels, edges }
}

// ---- the edges of the buckets ----

/// The time of a call of the directory, which is mostly below a millisecond.
pub open spec fn dir_rpc_latency_edges() -> Seq<u64> {
    seq![
        500u64,
        1_000u64,
        2_500u64,
        5_000u64,
        10_000u64,
        25_000u64,
        50_000u64,
        100_000u64,
        500_000u64,
        1_000_000u64,
        5_000_000u64,
    ]
}

/// The edges of [`dir_rpc_latency_edges`].
fn dir_rpc_latency_buckets() -> (r: Vec<u64>)
    ensures
        r@ == dir_rpc_latency_edges(),
{
    vec![
        500,
        1_000,
        2_500,
        5_000,
        10_000,
        25_000,
        50_000,
        100_000,
        500_000,
        1_000_000,
        5_000_000,
    ]
}

/// The time of the delivery of a chunk.
pub open spec fn delivery_chunk_latency_edges() -> Seq<u64> {
    seq![
        100_000u64,
        250_000u64,
        500_000u64,
        1_000_000u64,
        2_000_000u64,
        4_000_000u64,
        8_000_000u64,
        16_000_000u64,
        32_000_000u64,
        64_000_000u64,
        128_000_000u64,
        256_000_000u64,
        512_000_000u64,
    ]
}

/// The edges of [`delivery_chunk_latency_edges`].
fn delivery_chunk_latency_buckets() -> (r: Vec<u64>)
    ensures
        r@ == delivery_chunk_latency_edges(),
{
    vec![
        100_000,
        250_000,
        500_000,
        1_000_000,
        2_000_000,
        4_000_000,
        8_000_000,
        16_000_000,
        32_000_000,
        64_000_000,
        128_000_000,
        256_000_000,
        512_000_000,
    ]
}

/// The time of a phase of a scattered write.
pub open spec fn scatter_phase_latency_edges() -> Seq<u64> {
    seq![
        100_000u64,
        1_000_000u64,
        10_000_000u64,
        50_000_000u64,
        100_000_000u64,
        250_000_000u64,
        500_000_000u64,
        1_000_000_000u64,
        2_000_000_000u64,
        4_000_000_000u64,
        8_000_000_000u64,
        16_000_000_000u64,
    ]
}

/// The edges of [`scatter_phase_latency_edges`].
fn scatter_phase_latency_buckets() -> (r: Vec<u64>)
    ensures
        r@ == scatter_phase_latency_edges(),
{
    vec![
        100_000,
        1_000_000,
        10_000_000,
        50_000_000,
        100_000_000,
        250_000_000,
        500_000_000,
        1_000_000_000,
        2_000_000_000,
        4_000_000_000,
        8_000_000_000,
        16_000_000_000,
    ]
}

/// Whether each edge lies above the one before it.
pub open spec fn edges_rise(edges: Seq<u64>) -> bool {
    forall|i: int, j: int| 0 <= i < j < edges.len() ==> edges[i] < edges[j]
}

/// The edges of each kind of time rise. Those of a directory call go from half a microsecond to
/// five milliseconds, three to each tenfold up to a tenth of a millisecond; those of a chunk's
/// delivery from a tenth of a millisecond on, and double from a quarter of one; those of a phase of
/// a scattered write from a tenth of a millisecond, tenfold up to ten milliseconds, and double
/// from a quarter of a second up to sixteen.
pub proof fn how_the_edges_rise()
    ensures
        edges_rise(dir_rpc_latency_edges()),
        edges_rise(delivery_chunk_latency_edges()),
        edges_rise(scatter_phase_latency_edges()),
        ({
            let d = dir_rpc_latency_edges();
            &&& d.len() == 11 && d[0] == 500 && d[1] == 2 * d[0] && d[2] == 5 * d[0]
            &&& forall|i: int| 0 <= i < 5 ==> #[trigger] d[i + 3] == 10 * d[i]
            &&& d[8] == 5 * d[7] && d[9] == 2 * d[8] && d[10] == 5 * d[9]
        }),
        ({
            let c = delivery_chunk_latency_edges();
            &&& c.len() == 13 && c[0] == 100_000 && c[1] == 250_000
            &&& forall|i: int| 1 <= i < 12 ==> #[trigger] c[i + 1] == 2 * c[i]
        }),
        ({
            let p = scatter_phase_latency_edges();
            &&& p.len() == 12 && p[0] == 100_000 && p[1] == 10 * p[0] && p[2] == 10 * p[1]
            &&& p[3] == 50_000_000 && p[4] == 2 * p[3] && p[5] == 250_000_000
            &&& forall|i: int| 5 <= i < 11 ==> #[trigger] p[i + 1] == 2 * p[i]
        }),
{
    let d = dir_rpc_latency_edges();
    let c = delivery_chunk_latency_edges();
    let p = scatter_phase_latency_edges();
    assert forall|i: int| 0 <= i < 5 implies #[trigger] d[i + 3] == 10 * d[i] by {
        assert(i == 0 || i == 1 || i == 2 || i == 3 || i == 4);
    }
    assert forall|i: int| 1 <= i < 12 implies #[trigger] c[i + 1] == 2 * c[i] by {
        assert(i == 1 || i == 2 || i == 3 || i == 4 || i == 5 || i == 6 || i == 7 || i == 8 || i
            == 9 || i == 10 || i == 11);
    }
    assert forall|i: int| 5 <= i < 11 implies #[trigger] p[i + 1] == 2 * p[i] by {
        assert(i == 5 || i == 6 || i == 7 || i == 8 || i == 9 || i == 10);
    }
}

// ---- the names of the labels ----

/// Whether the bytes count toward the total.
pub const LABEL_COUNTED: &'static str = "counted";

/// The block device.
pub const LABEL_DEVICE: &'static str = "device";

/// Which number of a rail.
pub const LABEL_METRIC: &'static str = "metric";

/// The memory node of a rail.
pub const LABEL_NUMA: &'static str = "numa";

/// The operation.
pub const LABEL_OP: &'static str = "op";

/// What came of it.
pub const LABEL_OUTCOME: &'static str = "outcome";

/// The phase of a scattered write.
pub const LABEL_PHASE: &'static str = "phase";

/// The rail.
pub const LABEL_RAIL: &'static str = "rail";

/// Why.
pub const LABEL_REASON: &'static str = "reason";

/// Who uploaded.
pub const LABEL_ROLE: &'static str = "role";

/// Where the bytes came from.
pub const LABEL_SOURCE: &'static str = "source";

/// The stage of a delivery.
pub const LABEL_STAGE: &'static str = "stage";

/// What the memory is for.
pub const LABEL_TERM: &'static str = "term";

// ---- of the node as a whole ----

pub const OPS_TOTAL: &'static str = "pacer_ops_total";

pub const OPS_TOTAL_HELP: &'static str = "S3 operations handled, by operation";

pub const RING_MEMBERS: &'static str = "pacer_ring_members";

pub const RING_MEMBERS_HELP: &'static str = "Nodes in the current ring epoch";

pub const PROCESS_CPU_SECONDS_TOTAL: &'static str = "process_cpu_seconds_total";

pub const PROCESS_CPU_SECONDS_TOTAL_HELP: &'static str = "Total user + system CPU time spent by the process, in seconds";

pub const PROCESS_RESIDENT_MEMORY_BYTES: &'static str = "process_resident_memory_bytes";

pub const PROCESS_RESIDENT_MEMORY_BYTES_HELP: &'static str = "Resident set size of the process, in bytes";

pub const BACKEND_CONNECTIONS: &'static str = "pacer_backend_connections";

pub const BACKEND_CONNECTIONS_HELP: &'static str = "Established TCP connections from this daemon to the backend's HTTPS port";

pub const BACKEND_PEER_ENDPOINTS: &'static str = "pacer_backend_peer_endpoints";

pub const BACKEND_PEER_ENDPOINTS_HELP: &'static str = "Distinct remote addresses among pacer_backend_connections — few of them means the ceiling may be per destination IP";

pub const DIR_RPC_SECONDS: &'static str = "pacer_dir_rpc_seconds";

pub const DIR_RPC_SECONDS_HELP: &'static str = "Directory-shard RPC service time (in-lock op only), by op";

/// Of the node as a whole.
pub open spec fn process_series() -> Seq<Described> {
    seq![
        labelled(
            SeriesKind::CounterVec,
            OPS_TOTAL,
            OPS_TOTAL_HELP,
            seq![LABEL_OP@],
            Seq::<u64>::empty(),
        ),
        plain(SeriesKind::IntGauge, RING_MEMBERS, RING_MEMBERS_HELP),
        plain(SeriesKind::Gauge, PROCESS_CPU_SECONDS_TOTAL, PROCESS_CPU_SECONDS_TOTAL_HELP),
        plain(SeriesKind::Gauge, PROCESS_RESIDENT_MEMORY_BYTES, PROCESS_RESIDENT_MEMORY_BYTES_HELP),
        plain(SeriesKind::Gauge, BACKEND_CONNECTIONS, BACKEND_CONNECTIONS_HELP),
        plain(SeriesKind::Gauge, BACKEND_PEER_ENDPOINTS, BACKEND_PEER_ENDPOINTS_HELP),
        labelled(
            SeriesKind::HistogramVec,
            DIR_RPC_SECONDS,
            DIR_RPC_SECONDS_HELP,
            seq![LABEL_OP@],
            dir_rpc_latency_edges(),
        ),
    ]
}

/// Of the node as a whole.
pub fn register_non_counters() -> (r: Vec<Series>)
    ensures
        listed(r@) == process_series(),
{
    let list = vec![
        int_counter_vec(OPS_TOTAL, OPS_TOTAL_HELP, one(LABEL_OP)),
        int_gauge(RING_MEMBERS, RING_MEMBERS_HELP),
        gauge(PROCESS_CPU_SECONDS_TOTAL, PROCESS_CPU_SECONDS_TOTAL_HELP),
        gauge(PROCESS_RESIDENT_MEMORY_BYTES, PROCESS_RESIDENT_MEMORY_BYTES_HELP),
        gauge(BACKEND_CONNECTIONS, BACKEND_CONNECTIONS_HELP),
        gauge(BACKEND_PEER_ENDPOINTS, BACKEND_PEER_ENDPOINTS_HELP),
        histogram_vec(DIR_RPC_SECONDS, DIR_RPC_SECONDS_HELP, one(LABEL_OP), dir_rpc_latency_buckets()),
    ];
    assert(listed(list@) =~= process_series());
    list
}

// ---- of the RDMA plane ----

pub const RDMA_HOLDER_COPY_SECONDS_TOTAL: &'static str = "pacer_rdma_holder_copy_seconds_total";

pub const RDMA_HOLDER_COPY_SECONDS_TOTAL_HELP: &'static str = "Holder-side RDMA bounce-copy time (cached bytes → registered WRITE buffer)";

pub const RDMA_REQUESTER_COPY_SECONDS_TOTAL: &'static str = "pacer_rdma_requester_copy_seconds_total";

pub const RDMA_REQUESTER_COPY_SECONDS_TOTAL_HELP: &'static str = "Requester-side RDMA copy-out time (legacy; ~0 since the zero-copy serve path)";

pub const RDMA_REQUESTER_SLOTS_IN_USE: &'static str = "pacer_rdma_requester_slots_in_use";

pub const RDMA_REQUESTER_SLOTS_IN_USE_HELP: &'static str = "Requester-side RDMA pool slots currently leased (slot-starvation signal)";

pub const RDMA_RAILS: &'static str = "pacer_rdma_rails";

pub const RDMA_RAILS_HELP: &'static str = "EFA rails brought up at startup (A5 multi-rail)";

pub const RDMA_POST_BATCH_SECONDS_TOTAL: &'static str = "pacer_rdma_post_batch_seconds_total";

pub const RDMA_POST_BATCH_SECONDS_TOTAL_HELP: &'static str = "Holder-side RDMA WRITE batch build+submit time (CPU-bound serve-path span)";

pub const RDMA_WRITE_COMPLETION_WAIT_SECONDS_TOTAL: &'static str = "pacer_rdma_write_completion_wait_seconds_total";

pub const RDMA_WRITE_COMPLETION_WAIT_SECONDS_TOTAL_HELP: &'static str = "Holder-side wait for RDMA WRITE completions (WALL-CLOCK scheduler wait, NOT CPU; do not use in a CPU/GiB ratio)";

pub const RDMA_CQ_ERRORS_TOTAL: &'static str = "pacer_rdma_cq_errors_total";

pub const RDMA_CQ_ERRORS_TOTAL_HELP: &'static str = "Completion-pump deaths (≥1 means RDMA flipped off to gRPC on this node — ADR-0003 fallback)";

pub const RDMA_UNOBSERVED_COMPLETION_FAILURES_TOTAL: &'static str = "pacer_rdma_unobserved_completion_failures_total";

pub const RDMA_UNOBSERVED_COMPLETION_FAILURES_TOTAL_HELP: &'static str = "FAILED work completions no waiter received, so their status reached no caller and no other series. NOT a pump death (see pacer_rdma_cq_errors_total) — the pump is alive and delivered them nowhere. Read beside pacer_delivery_write_failures_total{reason=\"work_request_flushed\"}: a queue pair in the error state flushes everything posted on it, so the flushes are consequences and exactly one non-flush status caused the transition. Non-zero here means that cause was swallowed and is in the daemon's log; ZERO, with flushes present, means the transition produced no observable completion at all";

pub const DELIVERY_UNKNOWN_PEER_RETRIES_TOTAL: &'static str = "pacer_delivery_unknown_peer_retries_total";

pub const DELIVERY_UNKNOWN_PEER_RETRIES_TOTAL_HELP: &'static str = "Delivery WRITEs re-posted after completing UNKNOWN_PEER: the client had not built an address handle for this writer yet (ADR-0030 point 2). Absorbed, not failed";

pub const DELIVERY_UNKNOWN_PEER_DECLINES_TOTAL: &'static str = "pacer_delivery_unknown_peer_declines_total";

pub const DELIVERY_UNKNOWN_PEER_DECLINES_TOTAL_HELP: &'static str = "Deliveries that gave up after retrying UNKNOWN_PEER and served the body instead — a client whose announce pump is starved or dead";

pub const RDMA_WRITE_SOURCES_ORPHANED_TOTAL: &'static str = "pacer_rdma_write_sources_orphaned_total";

pub const RDMA_WRITE_SOURCES_ORPHANED_TOTAL_HELP: &'static str = "WRITE source buffers handed to the completion pump because the serve's deadline elapsed first (ADR-0028: a timed-out completion must not free the frame)";

pub const RDMA_WRITE_SOURCES_HELD: &'static str = "pacer_rdma_write_sources_held";

pub const RDMA_WRITE_SOURCES_HELD_HELP: &'static str = "Source buffers a completion pump still holds, awaiting a completion that has not arrived";

pub const RDMA_RAIL: &'static str = "pacer_rdma_rail";

pub const RDMA_RAIL_HELP: &'static str = "Per-rail RDMA state: metric=writes_in_flight|writes_total|write_bytes_total|ranges_in_use|staging_in_use|staging_ranges|ah_evictions, labelled by rail and its NUMA node";

/// Of the RDMA plane.
pub open spec fn rdma_series() -> Seq<Described> {
    seq![
        plain(SeriesKind::Gauge, RDMA_HOLDER_COPY_SECONDS_TOTAL, RDMA_HOLDER_COPY_SECONDS_TOTAL_HELP),
        plain(SeriesKind::Gauge, RDMA_REQUESTER_COPY_SECONDS_TOTAL, RDMA_REQUESTER_COPY_SECONDS_TOTAL_HELP),
        plain(SeriesKind::Gauge, RDMA_REQUESTER_SLOTS_IN_USE, RDMA_REQUESTER_SLOTS_IN_USE_HELP),
        plain(SeriesKind::Gauge, RDMA_RAILS, RDMA_RAILS_HELP),
        plain(SeriesKind::Gauge, RDMA_POST_BATCH_SECONDS_TOTAL, RDMA_POST_BATCH_SECONDS_TOTAL_HELP),
        plain(SeriesKind::Gauge, RDMA_WRITE_COMPLETION_WAIT_SECONDS_TOTAL, RDMA_WRITE_COMPLETION_WAIT_SECONDS_TOTAL_HELP),
        plain(SeriesKind::Gauge, RDMA_CQ_ERRORS_TOTAL, RDMA_CQ_ERRORS_TOTAL_HELP),
        plain(SeriesKind::Gauge, RDMA_UNOBSERVED_COMPLETION_FAILURES_TOTAL, RDMA_UNOBSERVED_COMPLETION_FAILURES_TOTAL_HELP),
        plain(SeriesKind::Gauge, DELIVERY_UNKNOWN_PEER_RETRIES_TOTAL, DELIVERY_UNKNOWN_PEER_RETRIES_TOTAL_HELP),
        plain(SeriesKind::Gauge, DELIVERY_UNKNOWN_PEER_DECLINES_TOTAL, DELIVERY_UNKNOWN_PEER_DECLINES_TOTAL_HELP),
        plain(SeriesKind::Gauge, RDMA_WRITE_SOURCES_ORPHANED_TOTAL, RDMA_WRITE_SOURCES_ORPHANED_TOTAL_HELP),
        plain(SeriesKind::Gauge, RDMA_WRITE_SOURCES_HELD, RDMA_WRITE_SOURCES_HELD_HELP),
        labelled(
            SeriesKind::GaugeVec,
            RDMA_RAIL,
            RDMA_RAIL_HELP,
            seq![LABEL_RAIL@, LABEL_NUMA@, LABEL_METRIC@],
            Seq::<u64>::empty(),
        ),
    ] + client_edge_series()
}

/// Of the RDMA plane. Those of its clients come last.
pub fn register_rdma_gauges() -> (r: Vec<Series>)
    ensures
        listed(r@) == rdma_series(),
{
    let mut list = vec![
        gauge(RDMA_HOLDER_COPY_SECONDS_TOTAL, RDMA_HOLDER_COPY_SECONDS_TOTAL_HELP),
        gauge(RDMA_REQUESTER_COPY_SECONDS_TOTAL, RDMA_REQUESTER_COPY_SECONDS_TOTAL_HELP),
        gauge(RDMA_REQUESTER_SLOTS_IN_USE, RDMA_REQUESTER_SLOTS_IN_USE_HELP),
        gauge(RDMA_RAILS, RDMA_RAILS_HELP),
        gauge(RDMA_POST_BATCH_SECONDS_TOTAL, RDMA_POST_BATCH_SECONDS_TOTAL_HELP),
        gauge(RDMA_WRITE_COMPLETION_WAIT_SECONDS_TOTAL, RDMA_WRITE_COMPLETION_WAIT_SECONDS_TOTAL_HELP),
        gauge(RDMA_CQ_ERRORS_TOTAL, RDMA_CQ_ERRORS_TOTAL_HELP),
        gauge(RDMA_UNOBSERVED_COMPLETION_FAILURES_TOTAL, RDMA_UNOBSERVED_COMPLETION_FAILURES_TOTAL_HELP),
        gauge(DELIVERY_UNKNOWN_PEER_RETRIES_TOTAL, DELIVERY_UNKNOWN_PEER_RETRIES_TOTAL_HELP),
        gauge(DELIVERY_UNKNOWN_PEER_DECLINES_TOTAL, DELIVERY_UNKNOWN_PEER_DECLINES_TOTAL_HELP),
        gauge(RDMA_WRITE_SOURCES_ORPHANED_TOTAL, RDMA_WRITE_SOURCES_ORPHANED_TOTAL_HELP),
        gauge(RDMA_WRITE_SOURCES_HELD, RDMA_WRITE_SOURCES_HELD_HELP),
        gauge_vec(RDMA_RAIL, RDMA_RAIL_HELP, three(LABEL_RAIL, LABEL_NUMA, LABEL_METRIC)),
    ];
    list.append(&mut register_client_edge_gauges());
    assert(listed(list@) =~= rdma_series());
    list
}

// ---- of the clients that the RDMA plane writes to ----

pub const EFA_CLIENT_EVICTIONS_TOTAL: &'static str = "pacer_efa_client_evictions_total";

pub const EFA_CLIENT_EVICTIONS_TOTAL_HELP: &'static str = "Client-edge records evicted, summed over the AH cache, the first-contact gate and the announce set. reason=cap is the ALARM (the endpoint set outgrew PACER_EFA_MAX_CLIENTS, so an endpoint still being written to can lose its record mid-request); reason=ttl is the idle reaper working; reason=explicit is UNKNOWN_PEER evidence retiring a stale record";

pub const EFA_CLIENT_AH_ENTRIES: &'static str = "pacer_efa_client_ah_entries";

pub const EFA_CLIENT_AH_ENTRIES_HELP: &'static str = "Client address handles held across rails, bounded by PACER_EFA_MAX_CLIENTS per rail (ADR-0030 client edge)";

pub const EFA_CLIENT_READY_ENTRIES: &'static str = "pacer_efa_client_ready_entries";

pub const EFA_CLIENT_READY_ENTRIES_HELP: &'static str = "Client endpoints whose first contact this node is tracking, across rails — same bound";

pub const EFA_ANNOUNCED_ENTRIES: &'static str = "pacer_efa_announced_entries";

pub const EFA_ANNOUNCED_ENTRIES_HELP: &'static str = "Client endpoints this node has announced itself to (ADR-0030 point 2) — node-wide, same bound";

/// Of the clients that the RDMA plane writes to.
pub open spec fn client_edge_series() -> Seq<Described> {
    seq![
        labelled(
            SeriesKind::GaugeVec,
            EFA_CLIENT_EVICTIONS_TOTAL,
            EFA_CLIENT_EVICTIONS_TOTAL_HELP,
            seq![LABEL_REASON@],
            Seq::<u64>::empty(),
        ),
        plain(SeriesKind::Gauge, EFA_CLIENT_AH_ENTRIES, EFA_CLIENT_AH_ENTRIES_HELP),
        plain(SeriesKind::Gauge, EFA_CLIENT_READY_ENTRIES, EFA_CLIENT_READY_ENTRIES_HELP),
        plain(SeriesKind::Gauge, EFA_ANNOUNCED_ENTRIES, EFA_ANNOUNCED_ENTRIES_HELP),
    ]
}

/// Of the clients that the RDMA plane writes to.
pub fn register_client_edge_gauges() -> (r: Vec<Series>)
    ensures
        listed(r@) == client_edge_series(),
{
    let list = vec![
        gauge_vec(EFA_CLIENT_EVICTIONS_TOTAL, EFA_CLIENT_EVICTIONS_TOTAL_HELP, one(LABEL_REASON)),
        gauge(EFA_CLIENT_AH_ENTRIES, EFA_CLIENT_AH_ENTRIES_HELP),
        gauge(EFA_CLIENT_READY_ENTRIES, EFA_CLIENT_READY_ENTRIES_HELP),
        gauge(EFA_ANNOUNCED_ENTRIES, EFA_ANNOUNCED_ENTRIES_HELP),
    ];
    assert(listed(list@) =~= client_edge_series());
    list
}

// ---- of the fills under way ----

pub const LOCAL_ADMITS_TOTAL: &'static str = "pacer_local_admits_total";

pub const LOCAL_ADMITS_TOTAL_HELP: &'static str = "Peer-owned chunks admitted locally after the frequency gate (ADR-0016 layer 1)";

pub const FILL_INFLIGHT: &'static str = "pacer_fill_inflight";

pub const FILL_INFLIGHT_HELP: &'static str = "Fills currently claimed via FillGuard — every path that claims the node-wide dedup set: the proxy's maybe_admit_local/maybe_fill and the peer server's read-through, which used to claim it directly and go uncounted";

pub const FILL_ABANDONED_TOTAL: &'static str = "pacer_fill_abandoned_total";

pub const FILL_ABANDONED_TOTAL_HELP: &'static str = "Guarded fills whose future was dropped before completing (e.g. a cancelled client GET) rather than finishing on its own — invisible before FillGuard existed";

/// Of the fills under way.
pub open spec fn fill_guard_series() -> Seq<Described> {
    seq![
        plain(SeriesKind::Counter, LOCAL_ADMITS_TOTAL, LOCAL_ADMITS_TOTAL_HELP),
        plain(SeriesKind::IntGauge, FILL_INFLIGHT, FILL_INFLIGHT_HELP),
        plain(SeriesKind::Counter, FILL_ABANDONED_TOTAL, FILL_ABANDONED_TOTAL_HELP),
    ]
}

/// Of the fills under way.
pub fn register_fill_guard_metrics() -> (r: Vec<Series>)
    ensures
        listed(r@) == fill_guard_series(),
{
    let list = vec![
        counter(LOCAL_ADMITS_TOTAL, LOCAL_ADMITS_TOTAL_HELP),
        int_gauge(FILL_INFLIGHT, FILL_INFLIGHT_HELP),
        counter(FILL_ABANDONED_TOTAL, FILL_ABANDONED_TOTAL_HELP),
    ];
    assert(listed(list@) =~= fill_guard_series());
    list
}

// ---- of the reads, as the cache sees them ----

pub const CACHE_HITS_TOTAL: &'static str = "pacer_cache_hits_total";

pub const CACHE_HITS_TOTAL_HELP: &'static str = "GETs served from cache";

pub const CACHE_MISSES_TOTAL: &'static str = "pacer_cache_misses_total";

pub const CACHE_MISSES_TOTAL_HELP: &'static str = "Cacheable GETs that missed";

pub const CACHE_BYPASS_TOTAL: &'static str = "pacer_cache_bypass_total";

pub const CACHE_BYPASS_TOTAL_HELP: &'static str = "GETs that bypassed the cache (policy)";

pub const CONDITIONAL_GET_SERVED_TOTAL: &'static str = "pacer_conditional_get_served_total";

pub const CONDITIONAL_GET_SERVED_TOTAL_HELP: &'static str = "If-Match GETs whose ETag matched, so the cache path was taken (ADR-0039)";

pub const FILLS_COMPLETED_TOTAL: &'static str = "pacer_fills_completed_total";

pub const FILLS_COMPLETED_TOTAL_HELP: &'static str = "Whole-object cache fills";

pub const FILLS_ABORTED_TOTAL: &'static str = "pacer_fills_aborted_total";

pub const FILLS_ABORTED_TOTAL_HELP: &'static str = "Cache fills abandoned (client disconnect or short read)";

pub const BYTES_FROM_CACHE_TOTAL: &'static str = "pacer_bytes_from_cache_total";

pub const BYTES_FROM_CACHE_TOTAL_HELP: &'static str = "Bytes served from cache";

pub const BYTES_FILLED_TOTAL: &'static str = "pacer_bytes_filled_total";

pub const BYTES_FILLED_TOTAL_HELP: &'static str = "Bytes written into the cache";

/// Of the reads, as the cache sees them.
pub open spec fn cache_path_series() -> Seq<Described> {
    seq![
        plain(SeriesKind::Counter, CACHE_HITS_TOTAL, CACHE_HITS_TOTAL_HELP),
        plain(SeriesKind::Counter, CACHE_MISSES_TOTAL, CACHE_MISSES_TOTAL_HELP),
        plain(SeriesKind::Counter, CACHE_BYPASS_TOTAL, CACHE_BYPASS_TOTAL_HELP),
        plain(SeriesKind::Counter, CONDITIONAL_GET_SERVED_TOTAL, CONDITIONAL_GET_SERVED_TOTAL_HELP),
        plain(SeriesKind::Counter, FILLS_COMPLETED_TOTAL, FILLS_COMPLETED_TOTAL_HELP),
        plain(SeriesKind::Counter, FILLS_ABORTED_TOTAL, FILLS_ABORTED_TOTAL_HELP),
        plain(SeriesKind::Counter, BYTES_FROM_CACHE_TOTAL, BYTES_FROM_CACHE_TOTAL_HELP),
        plain(SeriesKind::Counter, BYTES_FILLED_TOTAL, BYTES_FILLED_TOTAL_HELP),
    ]
}

/// Of the reads, as the cache sees them.
pub fn register_cache_path_counters() -> (r: Vec<Series>)
    ensures
        listed(r@) == cache_path_series(),
{
    let list = vec![
        counter(CACHE_HITS_TOTAL, CACHE_HITS_TOTAL_HELP),
        counter(CACHE_MISSES_TOTAL, CACHE_MISSES_TOTAL_HELP),
        counter(CACHE_BYPASS_TOTAL, CACHE_BYPASS_TOTAL_HELP),
        counter(CONDITIONAL_GET_SERVED_TOTAL, CONDITIONAL_GET_SERVED_TOTAL_HELP),
        counter(FILLS_COMPLETED_TOTAL, FILLS_COMPLETED_TOTAL_HELP),
        counter(FILLS_ABORTED_TOTAL, FILLS_ABORTED_TOTAL_HELP),
        counter(BYTES_FROM_CACHE_TOTAL, BYTES_FROM_CACHE_TOTAL_HELP),
        counter(BYTES_FILLED_TOTAL, BYTES_FILLED_TOTAL_HELP),
    ];
    assert(listed(list@) =~= cache_path_series());
    list
}

// ---- of the chunks that nodes ask of one another ----

pub const PEER_FETCHES_TOTAL: &'static str = "pacer_peer_fetches_total";

pub const PEER_FETCHES_TOTAL_HELP: &'static str = "Misses resolved by fetching from the owning peer";

pub const PEER_FALLBACKS_TOTAL: &'static str = "pacer_peer_fallbacks_total";

pub const PEER_FALLBACKS_TOTAL_HELP: &'static str = "Peer fetches that failed over to a direct backend GET";

pub const BYTES_FROM_PEERS_TOTAL: &'static str = "pacer_bytes_from_peers_total";

pub const BYTES_FROM_PEERS_TOTAL_HELP: &'static str = "Bytes received from peers (requester side)";

pub const PEER_SERVES_TOTAL: &'static str = "pacer_peer_serves_total";

pub const PEER_SERVES_TOTAL_HELP: &'static str = "Peer FetchBlob requests served (cache hit or read-through)";

pub const PEER_SERVES_RDMA_TOTAL: &'static str = "pacer_peer_serves_rdma_total";

pub const PEER_SERVES_RDMA_TOTAL_HELP: &'static str = "Peer FetchBlob requests served via a one-sided RDMA WRITE (ADR-0018)";

pub const PEER_MISSES_TOTAL: &'static str = "pacer_peer_misses_total";

pub const PEER_MISSES_TOTAL_HELP: &'static str = "Peer FetchBlob requests answered NOT_FOUND";

pub const PEER_READTHROUGHS_TOTAL: &'static str = "pacer_peer_readthroughs_total";

pub const PEER_READTHROUGHS_TOTAL_HELP: &'static str = "Owned misses read through to the backend on behalf of a peer";

pub const BYTES_TO_PEERS_TOTAL: &'static str = "pacer_bytes_to_peers_total";

pub const BYTES_TO_PEERS_TOTAL_HELP: &'static str = "Bytes sent to peers (server side)";

/// Of the chunks that nodes ask of one another.
pub open spec fn peer_path_series() -> Seq<Described> {
    seq![
        plain(SeriesKind::Counter, PEER_FETCHES_TOTAL, PEER_FETCHES_TOTAL_HELP),
        plain(SeriesKind::Counter, PEER_FALLBACKS_TOTAL, PEER_FALLBACKS_TOTAL_HELP),
        plain(SeriesKind::Counter, BYTES_FROM_PEERS_TOTAL, BYTES_FROM_PEERS_TOTAL_HELP),
        plain(SeriesKind::Counter, PEER_SERVES_TOTAL, PEER_SERVES_TOTAL_HELP),
        plain(SeriesKind::Counter, PEER_SERVES_RDMA_TOTAL, PEER_SERVES_RDMA_TOTAL_HELP),
        plain(SeriesKind::Counter, PEER_MISSES_TOTAL, PEER_MISSES_TOTAL_HELP),
        plain(SeriesKind::Counter, PEER_READTHROUGHS_TOTAL, PEER_READTHROUGHS_TOTAL_HELP),
        plain(SeriesKind::Counter, BYTES_TO_PEERS_TOTAL, BYTES_TO_PEERS_TOTAL_HELP),
    ]
}

/// Of the chunks that nodes ask of one another.
pub fn register_peer_path_counters() -> (r: Vec<Series>)
    ensures
        listed(r@) == peer_path_series(),
{
    let list = vec![
        counter(PEER_FETCHES_TOTAL, PEER_FETCHES_TOTAL_HELP),
        counter(PEER_FALLBACKS_TOTAL, PEER_FALLBACKS_TOTAL_HELP),
        counter(BYTES_FROM_PEERS_TOTAL, BYTES_FROM_PEERS_TOTAL_HELP),
        counter(PEER_SERVES_TOTAL, PEER_SERVES_TOTAL_HELP),
        counter(PEER_SERVES_RDMA_TOTAL, PEER_SERVES_RDMA_TOTAL_HELP),
        counter(PEER_MISSES_TOTAL, PEER_MISSES_TOTAL_HELP),
        counter(PEER_READTHROUGHS_TOTAL, PEER_READTHROUGHS_TOTAL_HELP),
        counter(BYTES_TO_PEERS_TOTAL, BYTES_TO_PEERS_TOTAL_HELP),
    ];
    assert(listed(list@) =~= peer_path_series());
    list
}

// ---- of the control group that the node runs in ----

pub const CGROUP_MEMORY_CURRENT_BYTES: &'static str = "pacer_cgroup_memory_current_bytes";

pub const CGROUP_MEMORY_CURRENT_BYTES_HELP: &'static str = "Memory charged to this container's cgroup INCLUDING page cache (memory.current) — the quantity the limit is compared against, unlike process_resident_memory_bytes";

pub const CGROUP_MEMORY_MAX_BYTES: &'static str = "pacer_cgroup_memory_max_bytes";

pub const CGROUP_MEMORY_MAX_BYTES_HELP: &'static str = "This cgroup's memory limit (memory.max); infinity when unlimited. Plot current/max for proximity to an OOM kill";

pub const CGROUP_MEMORY_FILE_BYTES: &'static str = "pacer_cgroup_memory_file_bytes";

pub const CGROUP_MEMORY_FILE_BYTES_HELP: &'static str = "Page cache charged to this cgroup (memory.stat file) — the term VmRSS EXCLUDES and foyer's buffered disk tier fills";

pub const CGROUP_MEMORY_FILE_DIRTY_BYTES: &'static str = "pacer_cgroup_memory_file_dirty_bytes";

pub const CGROUP_MEMORY_FILE_DIRTY_BYTES_HELP: &'static str = "Page cache written but not yet flushed (memory.stat file_dirty) — unreclaimable until writeback completes";

pub const CGROUP_MEMORY_FILE_WRITEBACK_BYTES: &'static str = "pacer_cgroup_memory_file_writeback_bytes";

pub const CGROUP_MEMORY_FILE_WRITEBACK_BYTES_HELP: &'static str = "Page cache currently being written back (memory.stat file_writeback)";

pub const CGROUP_MEMORY_ANON_BYTES: &'static str = "pacer_cgroup_memory_anon_bytes";

pub const CGROUP_MEMORY_ANON_BYTES_HELP: &'static str = "Anonymous memory charged to this cgroup (memory.stat anon) — the part of current that tracks the process-level series";

pub const CGROUP_MEMORY_OOM_TOTAL: &'static str = "pacer_cgroup_memory_oom_total";

pub const CGROUP_MEMORY_OOM_TOTAL_HELP: &'static str = "ALERT ON THIS. Times an allocation failed under this cgroup's limit after reclaim (memory.events oom) — counted BEFORE any kill, and readable by a daemon still alive";

pub const CGROUP_MEMORY_OOM_KILL_TOTAL: &'static str = "pacer_cgroup_memory_oom_kill_total";

pub const CGROUP_MEMORY_OOM_KILL_TOTAL_HELP: &'static str = "Tasks the OOM killer terminated in this cgroup (memory.events oom_kill). Resets with the container's cgroup, so it evidences a kill that did NOT end the container";

/// Of the control group that the node runs in.
pub open spec fn cgroup_series() -> Seq<Described> {
    seq![
        plain(SeriesKind::Gauge, CGROUP_MEMORY_CURRENT_BYTES, CGROUP_MEMORY_CURRENT_BYTES_HELP),
        plain(SeriesKind::Gauge, CGROUP_MEMORY_MAX_BYTES, CGROUP_MEMORY_MAX_BYTES_HELP),
        plain(SeriesKind::Gauge, CGROUP_MEMORY_FILE_BYTES, CGROUP_MEMORY_FILE_BYTES_HELP),
        plain(SeriesKind::Gauge, CGROUP_MEMORY_FILE_DIRTY_BYTES, CGROUP_MEMORY_FILE_DIRTY_BYTES_HELP),
        plain(SeriesKind::Gauge, CGROUP_MEMORY_FILE_WRITEBACK_BYTES, CGROUP_MEMORY_FILE_WRITEBACK_BYTES_HELP),
        plain(SeriesKind::Gauge, CGROUP_MEMORY_ANON_BYTES, CGROUP_MEMORY_ANON_BYTES_HELP),
        plain(SeriesKind::Gauge, CGROUP_MEMORY_OOM_TOTAL, CGROUP_MEMORY_OOM_TOTAL_HELP),
        plain(SeriesKind::Gauge, CGROUP_MEMORY_OOM_KILL_TOTAL, CGROUP_MEMORY_OOM_KILL_TOTAL_HELP),
    ]
}

/// Of the control group that the node runs in.
pub fn register_cgroup_gauges() -> (r: Vec<Series>)
    ensures
        listed(r@) == cgroup_series(),
{
    let list = vec![
        gauge(CGROUP_MEMORY_CURRENT_BYTES, CGROUP_MEMORY_CURRENT_BYTES_HELP),
        gauge(CGROUP_MEMORY_MAX_BYTES, CGROUP_MEMORY_MAX_BYTES_HELP),
        gauge(CGROUP_MEMORY_FILE_BYTES, CGROUP_MEMORY_FILE_BYTES_HELP),
        gauge(CGROUP_MEMORY_FILE_DIRTY_BYTES, CGROUP_MEMORY_FILE_DIRTY_BYTES_HELP),
        gauge(CGROUP_MEMORY_FILE_WRITEBACK_BYTES, CGROUP_MEMORY_FILE_WRITEBACK_BYTES_HELP),
        gauge(CGROUP_MEMORY_ANON_BYTES, CGROUP_MEMORY_ANON_BYTES_HELP),
        gauge(CGROUP_MEMORY_OOM_TOTAL, CGROUP_MEMORY_OOM_TOTAL_HELP),
        gauge(CGROUP_MEMORY_OOM_KILL_TOTAL, CGROUP_MEMORY_OOM_KILL_TOTAL_HELP),
    ];
    assert(listed(list@) =~= cgroup_series());
    list
}

// ---- of the allocator ----

pub const MALLOC_HEAP_BYTES: &'static str = "pacer_malloc_heap_bytes";

pub const MALLOC_HEAP_BYTES_HELP: &'static str = "Allocator capacity in sbrk-grown arenas, summed over arenas (mallinfo2 arena)";

pub const MALLOC_MMAPPED_BYTES: &'static str = "pacer_malloc_mmapped_bytes";

pub const MALLOC_MMAPPED_BYTES_HELP: &'static str = "Allocator capacity obtained directly by mmap, released on free (mallinfo2 hblkhd)";

pub const MALLOC_IN_USE_BYTES: &'static str = "pacer_malloc_in_use_bytes";

pub const MALLOC_IN_USE_BYTES_HELP: &'static str = "Bytes allocated and not yet freed — includes foyer's memory tier (mallinfo2 uordblks)";

pub const MALLOC_FREE_RETAINED_BYTES: &'static str = "pacer_malloc_free_retained_bytes";

pub const MALLOC_FREE_RETAINED_BYTES_HELP: &'static str = "Bytes freed by the daemon but still held by the allocator (mallinfo2 fordblks)";

/// Of the allocator.
pub open spec fn malloc_series() -> Seq<Described> {
    seq![
        plain(SeriesKind::Gauge, MALLOC_HEAP_BYTES, MALLOC_HEAP_BYTES_HELP),
        plain(SeriesKind::Gauge, MALLOC_MMAPPED_BYTES, MALLOC_MMAPPED_BYTES_HELP),
        plain(SeriesKind::Gauge, MALLOC_IN_USE_BYTES, MALLOC_IN_USE_BYTES_HELP),
        plain(SeriesKind::Gauge, MALLOC_FREE_RETAINED_BYTES, MALLOC_FREE_RETAINED_BYTES_HELP),
    ]
}

/// Of the allocator.
pub fn register_malloc_gauges() -> (r: Vec<Series>)
    ensures
        listed(r@) == malloc_series(),
{
    let list = vec![
        gauge(MALLOC_HEAP_BYTES, MALLOC_HEAP_BYTES_HELP),
        gauge(MALLOC_MMAPPED_BYTES, MALLOC_MMAPPED_BYTES_HELP),
        gauge(MALLOC_IN_USE_BYTES, MALLOC_IN_USE_BYTES_HELP),
        gauge(MALLOC_FREE_RETAINED_BYTES, MALLOC_FREE_RETAINED_BYTES_HELP),
    ];
    assert(listed(list@) =~= malloc_series());
    list
}

// ---- of the memory that the node may need ----

pub const MEMORY_BUDGET_BYTES: &'static str = "pacer_memory_budget_bytes";

pub const MEMORY_BUDGET_BYTES_HELP: &'static str = "Bytes this daemon is CONFIGURED to hold, by term (the sum deploy/helm/pacer/templates/_helpers.tpl's pacer.memoryLimit derives). counted=\"false\" terms are reported but NOT enforced, because the chart does not add them either";

pub const MEMORY_BUDGET_TOTAL_BYTES: &'static str = "pacer_memory_budget_total_bytes";

pub const MEMORY_BUDGET_TOTAL_BYTES_HELP: &'static str = "The enforced sum of the terms above — what the startup check compared against memory.max. Plot it against pacer_cgroup_memory_max_bytes: a configuration that never fitted looks nothing like one that fitted and then grew";

/// Of the memory that the node may need.
pub open spec fn memory_budget_series() -> Seq<Described> {
    seq![
        labelled(
            SeriesKind::GaugeVec,
            MEMORY_BUDGET_BYTES,
            MEMORY_BUDGET_BYTES_HELP,
            seq![LABEL_TERM@, LABEL_COUNTED@],
            Seq::<u64>::empty(),
        ),
        plain(SeriesKind::Gauge, MEMORY_BUDGET_TOTAL_BYTES, MEMORY_BUDGET_TOTAL_BYTES_HELP),
    ]
}

/// Of the memory that the node may need.
pub fn register_memory_budget_gauges() -> (r: Vec<Series>)
    ensures
        listed(r@) == memory_budget_series(),
{
    let list = vec![
        gauge_vec(MEMORY_BUDGET_BYTES, MEMORY_BUDGET_BYTES_HELP, two(LABEL_TERM, LABEL_COUNTED)),
        gauge(MEMORY_BUDGET_TOTAL_BYTES, MEMORY_BUDGET_TOTAL_BYTES_HELP),
    ];
    assert(listed(list@) =~= memory_budget_series());
    list
}

// ---- of the reads from the backend ----

pub const BACKEND_READ_RETRIES_TOTAL: &'static str = "pacer_backend_read_retries_total";

pub const BACKEND_READ_RETRIES_TOTAL_HELP: &'static str = "Backend chunk reads re-issued after a transient failure (retried attempts, not reads)";

pub const BACKEND_READ_FAILURES_TOTAL: &'static str = "pacer_backend_read_failures_total";

pub const BACKEND_READ_FAILURES_TOTAL_HELP: &'static str = "Backend chunk reads that gave up, by outcome — each one failed or truncated a client GET";

/// Of the reads from the backend.
pub open spec fn backend_read_series() -> Seq<Described> {
    seq![
        plain(SeriesKind::Counter, BACKEND_READ_RETRIES_TOTAL, BACKEND_READ_RETRIES_TOTAL_HELP),
        labelled(
            SeriesKind::CounterVec,
            BACKEND_READ_FAILURES_TOTAL,
            BACKEND_READ_FAILURES_TOTAL_HELP,
            seq![LABEL_OUTCOME@],
            Seq::<u64>::empty(),
        ),
    ]
}

/// Of the reads from the backend.
pub fn register_backend_read_metrics() -> (r: Vec<Series>)
    ensures
        listed(r@) == backend_read_series(),
{
    let list = vec![
        counter(BACKEND_READ_RETRIES_TOTAL, BACKEND_READ_RETRIES_TOTAL_HELP),
        int_counter_vec(BACKEND_READ_FAILURES_TOTAL, BACKEND_READ_FAILURES_TOTAL_HELP, one(LABEL_OUTCOME)),
    ];
    assert(listed(list@) =~= backend_read_series());
    list
}

// ---- of the reads that wait for another fill ----

pub const FILL_COALESCED_TOTAL: &'static str = "pacer_fill_coalesced_total";

pub const FILL_COALESCED_TOTAL_HELP: &'static str = "Chunk reads served from a fill another request already had in flight — each one a backend ranged GET this node did not issue (ADR-0040)";

pub const FILL_COALESCED_BYTES_TOTAL: &'static str = "pacer_fill_coalesced_bytes_total";

pub const FILL_COALESCED_BYTES_TOTAL_HELP: &'static str = "Bytes served from another request's in-flight fill, i.e. backend traffic avoided (ADR-0040)";

pub const FILL_WAITERS: &'static str = "pacer_fill_waiters";

pub const FILL_WAITERS_HELP: &'static str = "Requests parked on another request's in-flight fill right now — pinned with pacer_fill_coalesced_total flat means a stuck leader is holding them (ADR-0040)";

pub const FILL_COALESCE_FALLBACKS_TOTAL: &'static str = "pacer_fill_coalesce_fallbacks_total";

pub const FILL_COALESCE_FALLBACKS_TOTAL_HELP: &'static str = "Reads that waited on a leading fill, were handed nothing (its read failed or its client disconnected), and fetched for themselves — the pre-ADR-0040 path, not an error";

/// Of the reads that wait for another fill.
pub open spec fn fill_coalesce_series() -> Seq<Described> {
    seq![
        plain(SeriesKind::Counter, FILL_COALESCED_TOTAL, FILL_COALESCED_TOTAL_HELP),
        plain(SeriesKind::Counter, FILL_COALESCED_BYTES_TOTAL, FILL_COALESCED_BYTES_TOTAL_HELP),
        plain(SeriesKind::IntGauge, FILL_WAITERS, FILL_WAITERS_HELP),
        plain(SeriesKind::Counter, FILL_COALESCE_FALLBACKS_TOTAL, FILL_COALESCE_FALLBACKS_TOTAL_HELP),
    ]
}

/// Of the reads that wait for another fill.
pub fn register_fill_coalesce_metrics() -> (r: Vec<Series>)
    ensures
        listed(r@) == fill_coalesce_series(),
{
    let list = vec![
        counter(FILL_COALESCED_TOTAL, FILL_COALESCED_TOTAL_HELP),
        counter(FILL_COALESCED_BYTES_TOTAL, FILL_COALESCED_BYTES_TOTAL_HELP),
        int_gauge(FILL_WAITERS, FILL_WAITERS_HELP),
        counter(FILL_COALESCE_FALLBACKS_TOTAL, FILL_COALESCE_FALLBACKS_TOTAL_HELP),
    ];
    assert(listed(list@) =~= fill_coalesce_series());
    list
}

// ---- of the questions for endpoints ----

pub const DELIVERY_PREFLIGHT_TOTAL: &'static str = "pacer_delivery_preflight_total";

pub const DELIVERY_PREFLIGHT_TOTAL_HELP: &'static str = "Pre-flight endpoint queries answered, by outcome (served/no_plane/malformed). Flat at zero while pacer_delivery_requests_total climbs means no client is priming its address handles, so every delivery is back on the announce-and-retry race";

pub const DELIVERY_PREFLIGHT_NODES_TOTAL: &'static str = "pacer_delivery_preflight_nodes_total";

pub const DELIVERY_PREFLIGHT_NODES_TOTAL_HELP: &'static str = "Holder nodes named across every pre-flight answer; divided by the served count it is the holder fan-out a client must build address handles for";

/// Of the questions for endpoints.
pub open spec fn preflight_series() -> Seq<Described> {
    seq![
        labelled(
            SeriesKind::CounterVec,
            DELIVERY_PREFLIGHT_TOTAL,
            DELIVERY_PREFLIGHT_TOTAL_HELP,
            seq![LABEL_OUTCOME@],
            Seq::<u64>::empty(),
        ),
        plain(SeriesKind::Counter, DELIVERY_PREFLIGHT_NODES_TOTAL, DELIVERY_PREFLIGHT_NODES_TOTAL_HELP),
    ]
}

/// Of the questions for endpoints.
pub fn register_preflight_metrics() -> (r: Vec<Series>)
    ensures
        listed(r@) == preflight_series(),
{
    let list = vec![
        int_counter_vec(DELIVERY_PREFLIGHT_TOTAL, DELIVERY_PREFLIGHT_TOTAL_HELP, one(LABEL_OUTCOME)),
        counter(DELIVERY_PREFLIGHT_NODES_TOTAL, DELIVERY_PREFLIGHT_NODES_TOTAL_HELP),
    ];
    assert(listed(list@) =~= preflight_series());
    list
}

// ---- of the windows that were not delivered ----

pub const DELIVERY_DECLINES_TOTAL: &'static str = "pacer_delivery_declines_total";

pub const DELIVERY_DECLINES_TOTAL_HELP: &'static str = "Windows a client-registered target could not take, by reason. Transient reasons (not_announceable, writer_not_installed) are re-attempted per window; the rest degrade the request to a body, which is slower and never wrong";

pub const DELIVERY_WRITE_FAILURES_TOTAL: &'static str = "pacer_delivery_write_failures_total";

pub const DELIVERY_WRITE_FAILURES_TOTAL_HELP: &'static str = "Windows whose RDMA WRITE into client-registered memory FAILED, by completion status — each one answered a GET with a 500, and before this series existed nothing moved at all. Counts WORK REQUESTS, not reads: a queue pair in the error state flushes every request posted on it, so one failed GET incremented this by four (reason=work_request_flushed). Alert on non-zero, not on magnitude. A flush is a CONSEQUENCE — if no other status appears beside it, the status that caused it was discarded before any waiter saw it, which pacer_rdma_unobserved_completion_failures_total counts and the daemon log names";

/// Of the windows that were not delivered.
pub open spec fn window_outcome_series() -> Seq<Described> {
    seq![
        labelled(
            SeriesKind::CounterVec,
            DELIVERY_DECLINES_TOTAL,
            DELIVERY_DECLINES_TOTAL_HELP,
            seq![LABEL_REASON@],
            Seq::<u64>::empty(),
        ),
        labelled(
            SeriesKind::CounterVec,
            DELIVERY_WRITE_FAILURES_TOTAL,
            DELIVERY_WRITE_FAILURES_TOTAL_HELP,
            seq![LABEL_REASON@],
            Seq::<u64>::empty(),
        ),
    ]
}

/// Of the windows that were not delivered.
pub fn register_window_outcome_metrics() -> (r: Vec<Series>)
    ensures
        listed(r@) == window_outcome_series(),
{
    let list = vec![
        int_counter_vec(DELIVERY_DECLINES_TOTAL, DELIVERY_DECLINES_TOTAL_HELP, one(LABEL_REASON)),
        int_counter_vec(DELIVERY_WRITE_FAILURES_TOTAL, DELIVERY_WRITE_FAILURES_TOTAL_HELP, one(LABEL_REASON)),
    ];
    assert(listed(list@) =~= window_outcome_series());
    list
}

// ---- of the deliveries into client memory ----

pub const DELIVERY_REQUESTS_TOTAL: &'static str = "pacer_delivery_requests_total";

pub const DELIVERY_REQUESTS_TOTAL_HELP: &'static str = "GETs answered by delivering into client-supplied memory (ADR-0026)";

pub const DELIVERY_BYTES_TOTAL: &'static str = "pacer_delivery_bytes_total";

pub const DELIVERY_BYTES_TOTAL_HELP: &'static str = "Bytes delivered into client-supplied memory, per REQUEST (see pacer_delivery_chunk_bytes_total for bandwidth)";

pub const DELIVERY_CHUNK_BYTES_TOTAL: &'static str = "pacer_delivery_chunk_bytes_total";

pub const DELIVERY_CHUNK_BYTES_TOTAL_HELP: &'static str = "Bytes delivered into client memory, counted as each chunk lands, by source — the bandwidth series";

pub const DELIVERY_CHUNKS_TOTAL: &'static str = "pacer_delivery_chunks_total";

pub const DELIVERY_CHUNKS_TOTAL_HELP: &'static str = "Chunks delivered into client memory, by source (peer_rdma touches no bytes on this node)";

pub const DELIVERY_CHUNK_SECONDS: &'static str = "pacer_delivery_chunk_seconds";

pub const DELIVERY_CHUNK_SECONDS_HELP: &'static str = "Per-chunk delivery latency (cache read plus the copy or the holder's WRITE), by source";

pub const DELIVERY_STAGE_SECONDS: &'static str = "pacer_delivery_stage_seconds";

pub const DELIVERY_STAGE_SECONDS_HELP: &'static str = "Per-chunk delivery latency split by stage: cache_read, then copy into the client's window";

pub const DELIVERY_INFLIGHT_CHUNKS: &'static str = "pacer_delivery_inflight_chunks";

pub const DELIVERY_INFLIGHT_CHUNKS_HELP: &'static str = "Chunk resolutions in flight right now — the instantaneous delivery fan-out";

pub const DELIVERY_INFLIGHT_CHUNKS_PEAK: &'static str = "pacer_delivery_inflight_chunks_peak";

pub const DELIVERY_INFLIGHT_CHUNKS_PEAK_HELP: &'static str = "High-water mark of pacer_delivery_inflight_chunks — whether delivery.parallelism was ever reached";

pub const DELIVERY_REJECTS_TOTAL: &'static str = "pacer_delivery_rejects_total";

pub const DELIVERY_REJECTS_TOTAL_HELP: &'static str = "Delivery targets refused, by reason (only quota degrades to a body-delivered read)";

pub const DELIVERY_REGISTRATIONS_TOTAL: &'static str = "pacer_delivery_registrations_total";

pub const DELIVERY_REGISTRATIONS_TOTAL_HELP: &'static str = "Client-memory registrations performed (0 when every chunk was served locally)";

pub const DELIVERY_REGISTER_SECONDS_TOTAL: &'static str = "pacer_delivery_register_seconds_total";

pub const DELIVERY_REGISTER_SECONDS_TOTAL_HELP: &'static str = "Time spent registering client memory for RDMA (per-request by ADR-0026 point 7)";

pub const DELIVERY_PINNED_BYTES: &'static str = "pacer_delivery_pinned_bytes";

pub const DELIVERY_PINNED_BYTES_HELP: &'static str = "Client bytes currently mapped and pinned for delivery";

/// Of the deliveries into client memory.
pub open spec fn delivery_series() -> Seq<Described> {
    preflight_series() + window_outcome_series() + seq![
        plain(SeriesKind::Counter, DELIVERY_REQUESTS_TOTAL, DELIVERY_REQUESTS_TOTAL_HELP),
        plain(SeriesKind::Counter, DELIVERY_BYTES_TOTAL, DELIVERY_BYTES_TOTAL_HELP),
        labelled(
            SeriesKind::CounterVec,
            DELIVERY_CHUNK_BYTES_TOTAL,
            DELIVERY_CHUNK_BYTES_TOTAL_HELP,
            seq![LABEL_SOURCE@],
            Seq::<u64>::empty(),
        ),
        labelled(
            SeriesKind::CounterVec,
            DELIVERY_CHUNKS_TOTAL,
            DELIVERY_CHUNKS_TOTAL_HELP,
            seq![LABEL_SOURCE@],
            Seq::<u64>::empty(),
        ),
        labelled(
            SeriesKind::HistogramVec,
            DELIVERY_CHUNK_SECONDS,
            DELIVERY_CHUNK_SECONDS_HELP,
            seq![LABEL_SOURCE@],
            delivery_chunk_latency_edges(),
        ),
        labelled(
            SeriesKind::HistogramVec,
            DELIVERY_STAGE_SECONDS,
            DELIVERY_STAGE_SECONDS_HELP,
            seq![LABEL_STAGE@],
            delivery_chunk_latency_edges(),
        ),
        plain(SeriesKind::IntGauge, DELIVERY_INFLIGHT_CHUNKS, DELIVERY_INFLIGHT_CHUNKS_HELP),
        plain(SeriesKind::IntGauge, DELIVERY_INFLIGHT_CHUNKS_PEAK, DELIVERY_INFLIGHT_CHUNKS_PEAK_HELP),
        labelled(
            SeriesKind::CounterVec,
            DELIVERY_REJECTS_TOTAL,
            DELIVERY_REJECTS_TOTAL_HELP,
            seq![LABEL_REASON@],
            Seq::<u64>::empty(),
        ),
        plain(SeriesKind::Counter, DELIVERY_REGISTRATIONS_TOTAL, DELIVERY_REGISTRATIONS_TOTAL_HELP),
        plain(SeriesKind::FloatCounter, DELIVERY_REGISTER_SECONDS_TOTAL, DELIVERY_REGISTER_SECONDS_TOTAL_HELP),
        plain(SeriesKind::Gauge, DELIVERY_PINNED_BYTES, DELIVERY_PINNED_BYTES_HELP),
    ]
}

/// Of the deliveries into client memory. Those of the questions for endpoints and of the windows that were
/// not delivered come first.
pub fn register_delivery_metrics() -> (r: Vec<Series>)
    ensures
        listed(r@) == delivery_series(),
{
    let mut list = register_preflight_metrics();
    list.append(&mut register_window_outcome_metrics());
    let mut own = vec![
        counter(DELIVERY_REQUESTS_TOTAL, DELIVERY_REQUESTS_TOTAL_HELP),
        counter(DELIVERY_BYTES_TOTAL, DELIVERY_BYTES_TOTAL_HELP),
        int_counter_vec(DELIVERY_CHUNK_BYTES_TOTAL, DELIVERY_CHUNK_BYTES_TOTAL_HELP, one(LABEL_SOURCE)),
        int_counter_vec(DELIVERY_CHUNKS_TOTAL, DELIVERY_CHUNKS_TOTAL_HELP, one(LABEL_SOURCE)),
        histogram_vec(DELIVERY_CHUNK_SECONDS, DELIVERY_CHUNK_SECONDS_HELP, one(LABEL_SOURCE), delivery_chunk_latency_buckets()),
        histogram_vec(DELIVERY_STAGE_SECONDS, DELIVERY_STAGE_SECONDS_HELP, one(LABEL_STAGE), delivery_chunk_latency_buckets()),
        int_gauge(DELIVERY_INFLIGHT_CHUNKS, DELIVERY_INFLIGHT_CHUNKS_HELP),
        int_gauge(DELIVERY_INFLIGHT_CHUNKS_PEAK, DELIVERY_INFLIGHT_CHUNKS_PEAK_HELP),
        int_counter_vec(DELIVERY_REJECTS_TOTAL, DELIVERY_REJECTS_TOTAL_HELP, one(LABEL_REASON)),
        counter(DELIVERY_REGISTRATIONS_TOTAL, DELIVERY_REGISTRATIONS_TOTAL_HELP),
        float_counter(DELIVERY_REGISTER_SECONDS_TOTAL, DELIVERY_REGISTER_SECONDS_TOTAL_HELP),
        gauge(DELIVERY_PINNED_BYTES, DELIVERY_PINNED_BYTES_HELP),
    ];
    list.append(&mut own);
    assert(listed(list@) =~= delivery_series());
    list
}

// ---- of the scattered writes ----

pub const SCATTER_PUTS_TOTAL: &'static str = "pacer_scatter_puts_total";

pub const SCATTER_PUTS_TOTAL_HELP: &'static str = "PUTs decomposed onto the chunk grid and uploaded by the chunks' homes (ADR-0032)";

pub const SCATTER_DECLINED_TOTAL: &'static str = "pacer_scatter_declined_total";

pub const SCATTER_DECLINED_TOTAL_HELP: &'static str = "PUTs that did not scatter, by reason — all fell through to the proxy-and-invalidate path";

pub const SCATTER_WINDOWS_TOTAL: &'static str = "pacer_scatter_windows_total";

pub const SCATTER_WINDOWS_TOTAL_HELP: &'static str = "Windows uploaded, by role: owner (a chunk's home took it) or local (this node did)";

pub const SCATTER_UNCACHED_WINDOWS_TOTAL: &'static str = "pacer_scatter_uncached_windows_total";

pub const SCATTER_UNCACHED_WINDOWS_TOTAL_HELP: &'static str = "Windows uploaded but staged nowhere because a budget was full — durable, uncached, a later miss";

pub const SCATTER_OWNERS_ENGAGED_TOTAL: &'static str = "pacer_scatter_owners_engaged_total";

pub const SCATTER_OWNERS_ENGAGED_TOTAL_HELP: &'static str = "Distinct owners per scattered PUT, summed — divide by pacer_scatter_puts_total for mean fan-out";

pub const SCATTER_REFUSALS_TOTAL: &'static str = "pacer_scatter_refusals_total";

pub const SCATTER_REFUSALS_TOTAL_HELP: &'static str = "Offers an owner refused, by reason — large on a balanced save is reject-fast working, not a fault";

pub const SCATTER_PHASE_SECONDS: &'static str = "pacer_scatter_phase_seconds";

pub const SCATTER_PHASE_SECONDS_HELP: &'static str = "Where a coordinator's window slot goes, by phase. permit_wait=the wait for a slot (the client's backpressure); owner_rpc=a StoreChunk that was taken, covering the wire AND the owner's own UploadPart, so it is NOT a network measurement; owner_refused=the same wire with no S3 in it; owner_failed=a transport error; local_upload=this node's own stage+UploadPart; complete=CompleteMultipartUpload, ONCE PER PUT. Plus two observed on the OWNER: served_stage and served_upload. Wire = owner_rpc - (served_stage + served_upload); if served_upload is nearly all of owner_rpc the remote leg is S3 and ADR-0032 Phase 5 buys nothing";

/// Of the scattered writes.
pub open spec fn scatter_series() -> Seq<Described> {
    seq![
        plain(SeriesKind::Counter, SCATTER_PUTS_TOTAL, SCATTER_PUTS_TOTAL_HELP),
        labelled(
            SeriesKind::CounterVec,
            SCATTER_DECLINED_TOTAL,
            SCATTER_DECLINED_TOTAL_HELP,
            seq![LABEL_REASON@],
            Seq::<u64>::empty(),
        ),
        labelled(
            SeriesKind::CounterVec,
            SCATTER_WINDOWS_TOTAL,
            SCATTER_WINDOWS_TOTAL_HELP,
            seq![LABEL_ROLE@],
            Seq::<u64>::empty(),
        ),
        plain(SeriesKind::Counter, SCATTER_UNCACHED_WINDOWS_TOTAL, SCATTER_UNCACHED_WINDOWS_TOTAL_HELP),
        plain(SeriesKind::Counter, SCATTER_OWNERS_ENGAGED_TOTAL, SCATTER_OWNERS_ENGAGED_TOTAL_HELP),
        labelled(
            SeriesKind::CounterVec,
            SCATTER_REFUSALS_TOTAL,
            SCATTER_REFUSALS_TOTAL_HELP,
            seq![LABEL_REASON@],
            Seq::<u64>::empty(),
        ),
        labelled(
            SeriesKind::HistogramVec,
            SCATTER_PHASE_SECONDS,
            SCATTER_PHASE_SECONDS_HELP,
            seq![LABEL_PHASE@],
            scatter_phase_latency_edges(),
        ),
    ] + scatter_bound_series()
}

/// Of the scattered writes. Those of the bounds come last.
pub fn register_scatter_metrics() -> (r: Vec<Series>)
    ensures
        listed(r@) == scatter_series(),
{
    let mut list = vec![
        counter(SCATTER_PUTS_TOTAL, SCATTER_PUTS_TOTAL_HELP),
        int_counter_vec(SCATTER_DECLINED_TOTAL, SCATTER_DECLINED_TOTAL_HELP, one(LABEL_REASON)),
        int_counter_vec(SCATTER_WINDOWS_TOTAL, SCATTER_WINDOWS_TOTAL_HELP, one(LABEL_ROLE)),
        counter(SCATTER_UNCACHED_WINDOWS_TOTAL, SCATTER_UNCACHED_WINDOWS_TOTAL_HELP),
        counter(SCATTER_OWNERS_ENGAGED_TOTAL, SCATTER_OWNERS_ENGAGED_TOTAL_HELP),
        int_counter_vec(SCATTER_REFUSALS_TOTAL, SCATTER_REFUSALS_TOTAL_HELP, one(LABEL_REASON)),
        histogram_vec(SCATTER_PHASE_SECONDS, SCATTER_PHASE_SECONDS_HELP, one(LABEL_PHASE), scatter_phase_latency_buckets()),
    ];
    list.append(&mut register_scatter_bound_gauges());
    assert(listed(list@) =~= scatter_series());
    list
}

// ---- of the bounds that scattered writes keep ----

pub const SCATTER_STAGED_BYTES: &'static str = "pacer_scatter_staged_bytes";

pub const SCATTER_STAGED_BYTES_HELP: &'static str = "Bytes this node holds staged for scattered writes right now — uploaded to S3, not yet cache-visible, held until their upload's Complete (ADR-0032 § 4)";

pub const SCATTER_STAGED_BYTES_PEAK: &'static str = "pacer_scatter_staged_bytes_peak";

pub const SCATTER_STAGED_BYTES_PEAK_HELP: &'static str = "High-water mark of pacer_scatter_staged_bytes. READ IT AGAINST pacer_scatter_staging_budget_bytes: at the budget, refused{budget_exhausted} is residency-driven and only a reservation (ADR-0032 Phase 5), a per-part commit or staging to disk moves it; well below the budget with refusals present means a different cause entirely";

pub const SCATTER_STAGING_BUDGET_BYTES: &'static str = "pacer_scatter_staging_budget_bytes";

pub const SCATTER_STAGING_BUDGET_BYTES_HELP: &'static str = "This node's staging ceiling (scatter.stagingBytes) — published so headroom is computable without knowing the chart value";

pub const SCATTER_WINDOWS_IN_FLIGHT: &'static str = "pacer_scatter_windows_in_flight";

pub const SCATTER_WINDOWS_IN_FLIGHT_HELP: &'static str = "Window slots the scatter coordinator holds right now; times chunkSize, the client bytes it is buffering";

pub const SCATTER_WINDOWS_IN_FLIGHT_PEAK: &'static str = "pacer_scatter_windows_in_flight_peak";

pub const SCATTER_WINDOWS_IN_FLIGHT_PEAK_HELP: &'static str = "High-water mark of pacer_scatter_windows_in_flight — the on-hardware check that the coordinator's byte bound holds. It must never exceed pacer_scatter_windows_in_flight_limit";

pub const SCATTER_WINDOWS_IN_FLIGHT_LIMIT: &'static str = "pacer_scatter_windows_in_flight_limit";

pub const SCATTER_WINDOWS_IN_FLIGHT_LIMIT_HELP: &'static str = "The coordinator's slot ceiling (scatter.windowsInFlight), published beside the peak so headroom is computable without knowing the chart value";

/// Of the bounds that scattered writes keep.
pub open spec fn scatter_bound_series() -> Seq<Described> {
    seq![
        plain(SeriesKind::IntGauge, SCATTER_STAGED_BYTES, SCATTER_STAGED_BYTES_HELP),
        plain(SeriesKind::IntGauge, SCATTER_STAGED_BYTES_PEAK, SCATTER_STAGED_BYTES_PEAK_HELP),
        plain(SeriesKind::IntGauge, SCATTER_STAGING_BUDGET_BYTES, SCATTER_STAGING_BUDGET_BYTES_HELP),
        plain(SeriesKind::IntGauge, SCATTER_WINDOWS_IN_FLIGHT, SCATTER_WINDOWS_IN_FLIGHT_HELP),
        plain(SeriesKind::IntGauge, SCATTER_WINDOWS_IN_FLIGHT_PEAK, SCATTER_WINDOWS_IN_FLIGHT_PEAK_HELP),
        plain(SeriesKind::IntGauge, SCATTER_WINDOWS_IN_FLIGHT_LIMIT, SCATTER_WINDOWS_IN_FLIGHT_LIMIT_HELP),
    ]
}

/// Of the bounds that scattered writes keep.
pub fn register_scatter_bound_gauges() -> (r: Vec<Series>)
    ensures
        listed(r@) == scatter_bound_series(),
{
    let list = vec![
        int_gauge(SCATTER_STAGED_BYTES, SCATTER_STAGED_BYTES_HELP),
        int_gauge(SCATTER_STAGED_BYTES_PEAK, SCATTER_STAGED_BYTES_PEAK_HELP),
        int_gauge(SCATTER_STAGING_BUDGET_BYTES, SCATTER_STAGING_BUDGET_BYTES_HELP),
        int_gauge(SCATTER_WINDOWS_IN_FLIGHT, SCATTER_WINDOWS_IN_FLIGHT_HELP),
        int_gauge(SCATTER_WINDOWS_IN_FLIGHT_PEAK, SCATTER_WINDOWS_IN_FLIGHT_PEAK_HELP),
        int_gauge(SCATTER_WINDOWS_IN_FLIGHT_LIMIT, SCATTER_WINDOWS_IN_FLIGHT_LIMIT_HELP),
    ];
    assert(listed(list@) =~= scatter_bound_series());
    list
}

// ---- of the listener ----

pub const S3_CONNECTIONS_ACTIVE: &'static str = "pacer_s3_connections_active";

pub const S3_CONNECTIONS_ACTIVE_HELP: &'static str = "S3 connections currently held open (compare with PACER_S3_MAX_CONNECTIONS)";

pub const S3_CONNECTIONS_AT_CAPACITY_TOTAL: &'static str = "pacer_s3_connections_at_capacity_total";

pub const S3_CONNECTIONS_AT_CAPACITY_TOTAL_HELP: &'static str = "Times the accept loop waited for a free connection permit (the cap is binding)";

pub const S3_ACCEPT_ERRORS_TOTAL: &'static str = "pacer_s3_accept_errors_total";

pub const S3_ACCEPT_ERRORS_TOTAL_HELP: &'static str = "Transient accept() failures on the S3 listener, retried after a backoff";

/// Of the listener.
pub open spec fn listener_series() -> Seq<Described> {
    seq![
        plain(SeriesKind::IntGauge, S3_CONNECTIONS_ACTIVE, S3_CONNECTIONS_ACTIVE_HELP),
        plain(SeriesKind::Counter, S3_CONNECTIONS_AT_CAPACITY_TOTAL, S3_CONNECTIONS_AT_CAPACITY_TOTAL_HELP),
        plain(SeriesKind::Counter, S3_ACCEPT_ERRORS_TOTAL, S3_ACCEPT_ERRORS_TOTAL_HELP),
    ]
}

/// Of the listener.
pub fn register_listener_metrics() -> (r: Vec<Series>)
    ensures
        listed(r@) == listener_series(),
{
    let list = vec![
        int_gauge(S3_CONNECTIONS_ACTIVE, S3_CONNECTIONS_ACTIVE_HELP),
        counter(S3_CONNECTIONS_AT_CAPACITY_TOTAL, S3_CONNECTIONS_AT_CAPACITY_TOTAL_HELP),
        counter(S3_ACCEPT_ERRORS_TOTAL, S3_ACCEPT_ERRORS_TOTAL_HELP),
    ];
    assert(listed(list@) =~= listener_series());
    list
}

// ---- of the frames that bodies are held in ----

pub const CACHE_SLAB_STORES_TOTAL: &'static str = "pacer_cache_slab_stores_total";

pub const CACHE_SLAB_STORES_TOTAL_HELP: &'static str = "Chunks cached IN a registered slab frame (servable with no staging copy, ADR-0028)";

pub const CACHE_SLAB_HEAP_FALLBACKS_TOTAL: &'static str = "pacer_cache_slab_heap_fallbacks_total";

pub const CACHE_SLAB_HEAP_FALLBACKS_TOTAL_HELP: &'static str = "Chunks that found no free slab frame and were cached on the heap (a sizing signal)";

pub const CACHE_SLAB_FRAMES_IN_USE: &'static str = "pacer_cache_slab_frames_in_use";

pub const CACHE_SLAB_FRAMES_IN_USE_HELP: &'static str = "Slab frames currently holding a resident cached chunk";

pub const CACHE_SLAB_BYTES: &'static str = "pacer_cache_slab_bytes";

pub const CACHE_SLAB_BYTES_HELP: &'static str = "Registered size of the ADR-0028 cache slab (resident from startup; 0 = no slab). Subtract max(this, foyer_memory_usage) to get memory outside the cache — never the sum";

/// Of the frames that bodies are held in.
pub open spec fn slab_series() -> Seq<Described> {
    seq![
        plain(SeriesKind::Counter, CACHE_SLAB_STORES_TOTAL, CACHE_SLAB_STORES_TOTAL_HELP),
        plain(SeriesKind::Counter, CACHE_SLAB_HEAP_FALLBACKS_TOTAL, CACHE_SLAB_HEAP_FALLBACKS_TOTAL_HELP),
        plain(SeriesKind::Gauge, CACHE_SLAB_FRAMES_IN_USE, CACHE_SLAB_FRAMES_IN_USE_HELP),
        plain(SeriesKind::Gauge, CACHE_SLAB_BYTES, CACHE_SLAB_BYTES_HELP),
    ]
}

/// Of the frames that bodies are held in.
pub fn register_slab_metrics() -> (r: Vec<Series>)
    ensures
        listed(r@) == slab_series(),
{
    let list = vec![
        counter(CACHE_SLAB_STORES_TOTAL, CACHE_SLAB_STORES_TOTAL_HELP),
        counter(CACHE_SLAB_HEAP_FALLBACKS_TOTAL, CACHE_SLAB_HEAP_FALLBACKS_TOTAL_HELP),
        gauge(CACHE_SLAB_FRAMES_IN_USE, CACHE_SLAB_FRAMES_IN_USE_HELP),
        gauge(CACHE_SLAB_BYTES, CACHE_SLAB_BYTES_HELP),
    ];
    assert(listed(list@) =~= slab_series());
    list
}

// ---- of the chunk store ----

pub const CHUNK_STORE_HITS_TOTAL: &'static str = "pacer_chunk_store_hits_total";

pub const CHUNK_STORE_HITS_TOTAL_HELP: &'static str = "Chunk reads served from the ADR-0033 store (0 on diskTier=foyer)";

pub const CHUNK_STORE_MISSES_TOTAL: &'static str = "pacer_chunk_store_misses_total";

pub const CHUNK_STORE_MISSES_TOTAL_HELP: &'static str = "Chunk reads the ADR-0033 store did not hold";

pub const CHUNK_STORE_READ_BYTES_TOTAL: &'static str = "pacer_chunk_store_read_bytes_total";

pub const CHUNK_STORE_READ_BYTES_TOTAL_HELP: &'static str = "Body bytes served from the ADR-0033 store — the numerator of its read rate (NOT hits x chunkSize: a short last chunk is a hit for fewer bytes)";

pub const CHUNK_STORE_WRITTEN_BYTES_TOTAL: &'static str = "pacer_chunk_store_written_bytes_total";

pub const CHUNK_STORE_WRITTEN_BYTES_TOTAL_HELP: &'static str = "Body bytes written into the ADR-0033 store";

pub const CHUNK_STORE_READ_SECONDS_MEAN: &'static str = "pacer_chunk_store_read_seconds_mean";

pub const CHUNK_STORE_READ_SECONDS_MEAN_HELP: &'static str = "Mean seconds per chunk-store hit — compare against foyer_storage_op_duration's mean (40-75 ms per 16 MiB) and the device's own 1.335 ms";

pub const CHUNK_STORE_READ_SECONDS_MAX: &'static str = "pacer_chunk_store_read_seconds_max";

pub const CHUNK_STORE_READ_SECONDS_MAX_HELP: &'static str = "Longest single chunk-store read, in seconds — what a mean hides";

pub const CHUNK_STORE_SERVICE_SECONDS_MEAN: &'static str = "pacer_chunk_store_service_seconds_mean";

pub const CHUNK_STORE_SERVICE_SECONDS_MEAN_HELP: &'static str = "Mean SERVICE seconds per chunk-store hit — the header read, key compare, pread and optional CRC, measured inside the blocking task so it EXCLUDES queueing. Compare this against the device's 1.335 ms for 16 MiB, not read_seconds_mean";

pub const CHUNK_STORE_SERVICE_SECONDS_TOTAL: &'static str = "pacer_chunk_store_service_seconds_total";

pub const CHUNK_STORE_SERVICE_SECONDS_TOTAL_HELP: &'static str = "Summed SERVICE seconds over every chunk-store hit. Divide a delta of this by a delta of hits for ONE ARM's per-hit cost — the _mean beside it is a lifetime mean and cannot be attributed to an interval";

pub const CHUNK_STORE_READ_SECONDS_TOTAL: &'static str = "pacer_chunk_store_read_seconds_total";

pub const CHUNK_STORE_READ_SECONDS_TOTAL_HELP: &'static str = "Summed queue-inclusive seconds over every chunk-store hit; a delta of this minus a delta of service_seconds_total is that interval's queueing";

pub const CHUNK_STORE_SERVICE_SECONDS_MAX: &'static str = "pacer_chunk_store_service_seconds_max";

pub const CHUNK_STORE_SERVICE_SECONDS_MAX_HELP: &'static str = "Longest single chunk-store read's service time, in seconds";

pub const CHUNK_STORE_QUEUE_SECONDS_MEAN: &'static str = "pacer_chunk_store_queue_seconds_mean";

pub const CHUNK_STORE_QUEUE_SECONDS_MEAN_HELP: &'static str = "Mean seconds a chunk-store hit waited for a blocking thread (read minus service) — the share of a hit that is Little's law rather than cost";

pub const CHUNK_STORE_WRITES_TOTAL: &'static str = "pacer_chunk_store_writes_total";

pub const CHUNK_STORE_WRITES_TOTAL_HELP: &'static str = "Chunks written into the ADR-0033 store";

pub const CHUNK_STORE_WRITE_DEDUPS_TOTAL: &'static str = "pacer_chunk_store_write_dedups_total";

pub const CHUNK_STORE_WRITE_DEDUPS_TOTAL_HELP: &'static str = "Writes skipped because the key was already held (chunks are immutable)";

pub const CHUNK_STORE_EVICTIONS_TOTAL: &'static str = "pacer_chunk_store_evictions_total";

pub const CHUNK_STORE_EVICTIONS_TOTAL_HELP: &'static str = "Slots reused, evicting the least-recently-used chunk";

pub const CHUNK_STORE_KEY_MISMATCHES_TOTAL: &'static str = "pacer_chunk_store_key_mismatches_total";

pub const CHUNK_STORE_KEY_MISMATCHES_TOTAL_HELP: &'static str = "ALERT ON THIS. A slot whose header named a different key than the index did; the read was refused rather than served. Should be 0 forever — it is the check ADR-0033 added in place of foyer's unconditional checksum";

pub const CHUNK_STORE_CRC_MISMATCHES_TOTAL: &'static str = "pacer_chunk_store_crc_mismatches_total";

pub const CHUNK_STORE_CRC_MISMATCHES_TOTAL_HELP: &'static str = "Chunk bodies that failed their CRC32 (only ever non-zero with verifyChunkBody on)";

pub const CHUNK_STORE_CORRUPT_SLOTS_TOTAL: &'static str = "pacer_chunk_store_corrupt_slots_total";

pub const CHUNK_STORE_CORRUPT_SLOTS_TOTAL_HELP: &'static str = "Slots whose header was present but impossible";

pub const CHUNK_STORE_IO_ERRORS_TOTAL: &'static str = "pacer_chunk_store_io_errors_total";

pub const CHUNK_STORE_IO_ERRORS_TOTAL_HELP: &'static str = "I/O errors on a chunk-store read or write";

pub const CHUNK_STORE_SLOTS_USED: &'static str = "pacer_chunk_store_slots_used";

pub const CHUNK_STORE_SLOTS_USED_HELP: &'static str = "Slots currently holding a chunk — occupancy in the unit the tier allocates in";

pub const CHUNK_STORE_SLOTS_CAPACITY: &'static str = "pacer_chunk_store_slots_capacity";

pub const CHUNK_STORE_SLOTS_CAPACITY_HELP: &'static str = "Slots the ADR-0033 store has, occupied or not";

pub const CHUNK_STORE_SCAN_SECONDS: &'static str = "pacer_chunk_store_scan_seconds";

pub const CHUNK_STORE_SCAN_SECONDS_HELP: &'static str = "Seconds the startup slot-header scan took (it is what makes a restart keep the tier)";

pub const CHUNK_STORE_SCAN_RECOVERED: &'static str = "pacer_chunk_store_scan_recovered";

pub const CHUNK_STORE_SCAN_RECOVERED_HELP: &'static str = "Chunks the startup scan recovered from slot headers — how warm this restart started";

/// Of the chunk store.
pub open spec fn chunk_store_series() -> Seq<Described> {
    seq![
        plain(SeriesKind::Gauge, CHUNK_STORE_HITS_TOTAL, CHUNK_STORE_HITS_TOTAL_HELP),
        plain(SeriesKind::Gauge, CHUNK_STORE_MISSES_TOTAL, CHUNK_STORE_MISSES_TOTAL_HELP),
        plain(SeriesKind::Gauge, CHUNK_STORE_READ_BYTES_TOTAL, CHUNK_STORE_READ_BYTES_TOTAL_HELP),
        plain(SeriesKind::Gauge, CHUNK_STORE_WRITTEN_BYTES_TOTAL, CHUNK_STORE_WRITTEN_BYTES_TOTAL_HELP),
        plain(SeriesKind::Gauge, CHUNK_STORE_READ_SECONDS_MEAN, CHUNK_STORE_READ_SECONDS_MEAN_HELP),
        plain(SeriesKind::Gauge, CHUNK_STORE_READ_SECONDS_MAX, CHUNK_STORE_READ_SECONDS_MAX_HELP),
        plain(SeriesKind::Gauge, CHUNK_STORE_SERVICE_SECONDS_MEAN, CHUNK_STORE_SERVICE_SECONDS_MEAN_HELP),
        plain(SeriesKind::Gauge, CHUNK_STORE_SERVICE_SECONDS_TOTAL, CHUNK_STORE_SERVICE_SECONDS_TOTAL_HELP),
        plain(SeriesKind::Gauge, CHUNK_STORE_READ_SECONDS_TOTAL, CHUNK_STORE_READ_SECONDS_TOTAL_HELP),
        plain(SeriesKind::Gauge, CHUNK_STORE_SERVICE_SECONDS_MAX, CHUNK_STORE_SERVICE_SECONDS_MAX_HELP),
        plain(SeriesKind::Gauge, CHUNK_STORE_QUEUE_SECONDS_MEAN, CHUNK_STORE_QUEUE_SECONDS_MEAN_HELP),
        plain(SeriesKind::Gauge, CHUNK_STORE_WRITES_TOTAL, CHUNK_STORE_WRITES_TOTAL_HELP),
        plain(SeriesKind::Gauge, CHUNK_STORE_WRITE_DEDUPS_TOTAL, CHUNK_STORE_WRITE_DEDUPS_TOTAL_HELP),
        plain(SeriesKind::Gauge, CHUNK_STORE_EVICTIONS_TOTAL, CHUNK_STORE_EVICTIONS_TOTAL_HELP),
        plain(SeriesKind::Gauge, CHUNK_STORE_KEY_MISMATCHES_TOTAL, CHUNK_STORE_KEY_MISMATCHES_TOTAL_HELP),
        plain(SeriesKind::Gauge, CHUNK_STORE_CRC_MISMATCHES_TOTAL, CHUNK_STORE_CRC_MISMATCHES_TOTAL_HELP),
        plain(SeriesKind::Gauge, CHUNK_STORE_CORRUPT_SLOTS_TOTAL, CHUNK_STORE_CORRUPT_SLOTS_TOTAL_HELP),
        plain(SeriesKind::Gauge, CHUNK_STORE_IO_ERRORS_TOTAL, CHUNK_STORE_IO_ERRORS_TOTAL_HELP),
        plain(SeriesKind::Gauge, CHUNK_STORE_SLOTS_USED, CHUNK_STORE_SLOTS_USED_HELP),
        plain(SeriesKind::Gauge, CHUNK_STORE_SLOTS_CAPACITY, CHUNK_STORE_SLOTS_CAPACITY_HELP),
        plain(SeriesKind::Gauge, CHUNK_STORE_SCAN_SECONDS, CHUNK_STORE_SCAN_SECONDS_HELP),
        plain(SeriesKind::Gauge, CHUNK_STORE_SCAN_RECOVERED, CHUNK_STORE_SCAN_RECOVERED_HELP),
    ]
}

/// Of the chunk store.
pub fn register_chunk_store_metrics() -> (r: Vec<Series>)
    ensures
        listed(r@) == chunk_store_series(),
{
    let list = vec![
        gauge(CHUNK_STORE_HITS_TOTAL, CHUNK_STORE_HITS_TOTAL_HELP),
        gauge(CHUNK_STORE_MISSES_TOTAL, CHUNK_STORE_MISSES_TOTAL_HELP),
        gauge(CHUNK_STORE_READ_BYTES_TOTAL, CHUNK_STORE_READ_BYTES_TOTAL_HELP),
        gauge(CHUNK_STORE_WRITTEN_BYTES_TOTAL, CHUNK_STORE_WRITTEN_BYTES_TOTAL_HELP),
        gauge(CHUNK_STORE_READ_SECONDS_MEAN, CHUNK_STORE_READ_SECONDS_MEAN_HELP),
        gauge(CHUNK_STORE_READ_SECONDS_MAX, CHUNK_STORE_READ_SECONDS_MAX_HELP),
        gauge(CHUNK_STORE_SERVICE_SECONDS_MEAN, CHUNK_STORE_SERVICE_SECONDS_MEAN_HELP),
        gauge(CHUNK_STORE_SERVICE_SECONDS_TOTAL, CHUNK_STORE_SERVICE_SECONDS_TOTAL_HELP),
        gauge(CHUNK_STORE_READ_SECONDS_TOTAL, CHUNK_STORE_READ_SECONDS_TOTAL_HELP),
        gauge(CHUNK_STORE_SERVICE_SECONDS_MAX, CHUNK_STORE_SERVICE_SECONDS_MAX_HELP),
        gauge(CHUNK_STORE_QUEUE_SECONDS_MEAN, CHUNK_STORE_QUEUE_SECONDS_MEAN_HELP),
        gauge(CHUNK_STORE_WRITES_TOTAL, CHUNK_STORE_WRITES_TOTAL_HELP),
        gauge(CHUNK_STORE_WRITE_DEDUPS_TOTAL, CHUNK_STORE_WRITE_DEDUPS_TOTAL_HELP),
        gauge(CHUNK_STORE_EVICTIONS_TOTAL, CHUNK_STORE_EVICTIONS_TOTAL_HELP),
        gauge(CHUNK_STORE_KEY_MISMATCHES_TOTAL, CHUNK_STORE_KEY_MISMATCHES_TOTAL_HELP),
        gauge(CHUNK_STORE_CRC_MISMATCHES_TOTAL, CHUNK_STORE_CRC_MISMATCHES_TOTAL_HELP),
        gauge(CHUNK_STORE_CORRUPT_SLOTS_TOTAL, CHUNK_STORE_CORRUPT_SLOTS_TOTAL_HELP),
        gauge(CHUNK_STORE_IO_ERRORS_TOTAL, CHUNK_STORE_IO_ERRORS_TOTAL_HELP),
        gauge(CHUNK_STORE_SLOTS_USED, CHUNK_STORE_SLOTS_USED_HELP),
        gauge(CHUNK_STORE_SLOTS_CAPACITY, CHUNK_STORE_SLOTS_CAPACITY_HELP),
        gauge(CHUNK_STORE_SCAN_SECONDS, CHUNK_STORE_SCAN_SECONDS_HELP),
        gauge(CHUNK_STORE_SCAN_RECOVERED, CHUNK_STORE_SCAN_RECOVERED_HELP),
    ];
    assert(listed(list@) =~= chunk_store_series());
    list
}

// ---- of the block devices under the cache ----

pub const NODE_DEVICE_READ_BYTES_TOTAL: &'static str = "pacer_node_device_read_bytes_total";

pub const NODE_DEVICE_READ_BYTES_TOTAL_HELP: &'static str = "Bytes READ from the block devices backing the cache directory, from /proc/diskstats. THE ONLY series here that evidences a byte left a device: divide a delta of pacer_chunk_store_read_bytes_total (or foyer's) by a delta of this — about 1.0 means the tier read flash, ~0 means it read the page cache and the rate is a RAM rate. Array members only, so the family is safe to sum";

pub const NODE_DEVICE_WRITTEN_BYTES_TOTAL: &'static str = "pacer_node_device_written_bytes_total";

pub const NODE_DEVICE_WRITTEN_BYTES_TOTAL_HELP: &'static str = "Bytes WRITTEN to the block devices backing the cache directory, from /proc/diskstats. The store's writes are buffered, so a seed whose delta here is ~0 is still in dirty pages and the read that follows it cannot be a device measurement";

/// Of the block devices under the cache.
pub open spec fn device_io_series() -> Seq<Described> {
    seq![
        labelled(
            SeriesKind::GaugeVec,
            NODE_DEVICE_READ_BYTES_TOTAL,
            NODE_DEVICE_READ_BYTES_TOTAL_HELP,
            seq![LABEL_DEVICE@],
            Seq::<u64>::empty(),
        ),
        labelled(
            SeriesKind::GaugeVec,
            NODE_DEVICE_WRITTEN_BYTES_TOTAL,
            NODE_DEVICE_WRITTEN_BYTES_TOTAL_HELP,
            seq![LABEL_DEVICE@],
            Seq::<u64>::empty(),
        ),
    ]
}

/// Of the block devices under the cache.
pub fn register_device_io_metrics() -> (r: Vec<Series>)
    ensures
        listed(r@) == device_io_series(),
{
    let list = vec![
        gauge_vec(NODE_DEVICE_READ_BYTES_TOTAL, NODE_DEVICE_READ_BYTES_TOTAL_HELP, one(LABEL_DEVICE)),
        gauge_vec(NODE_DEVICE_WRITTEN_BYTES_TOTAL, NODE_DEVICE_WRITTEN_BYTES_TOTAL_HELP, one(LABEL_DEVICE)),
    ];
    assert(listed(list@) =~= device_io_series());
    list
}

} // verus!
