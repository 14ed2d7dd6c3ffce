use std::collections::{BTreeSet, HashMap};

use bytes::Bytes;
use pacer_daemon::clock::{Moment, Span};
use pacer_daemon::metrics::{
    Metrics, DELIVERY_STAGE_CACHE_READ, DELIVERY_STAGE_COPY, DELIVERY_STAGE_DIGEST,
    DELIVERY_STAGE_RDMA_WRITE, SCATTER_PHASE_COMPLETE, SCATTER_PHASE_LOCAL_UPLOAD,
    SCATTER_PHASE_OWNER_FAILED, SCATTER_PHASE_OWNER_REFUSED, SCATTER_PHASE_OWNER_RPC,
    SCATTER_PHASE_PERMIT_WAIT, SCATTER_PHASE_SERVED_STAGE, SCATTER_PHASE_SERVED_UPLOAD,
};
use pacer_daemon::scrape::{
    evictions_at_first, publish_device_counters, refresh, refresh_rdma_copy, refresh_scatter,
    set_memory_budget, Amount, BudgetTerm, CgroupSample, DeviceCounters, MallocSample, RailSample,
    RdmaSample, Reading, Samples, StoreSample, WindowSlots,
};
use pacer_daemon::series::{
    Series, SeriesKind, DELIVERY_STAGE_SECONDS, DELIVERY_WRITE_FAILURES_TOTAL,
    SCATTER_PHASE_SECONDS,
};
use pacer_daemon::staging::StagingArea;
use prometheus::{
    Counter, Encoder, Gauge, GaugeVec, HistogramOpts, HistogramVec, IntCounter, IntCounterVec,
    IntGauge, Opts, Registry, TextEncoder,
};

const NANOS_PER_SEC: f64 = 1_000_000_000.0;

/// A registered series.
enum Handle {
    Counter(IntCounter),
    FloatCounter(Counter),
    Gauge(Gauge),
    IntGauge(IntGauge),
    CounterVec(IntCounterVec),
    GaugeVec(GaugeVec),
    HistogramVec(HistogramVec),
}

/// The series of a node in a registry of their own.
struct Published {
    registry: Registry,
    handles: HashMap<&'static str, Handle>,
}

fn handle(registry: &Registry, s: &Series) -> prometheus::Result<Handle> {
    Ok(match s.kind {
        SeriesKind::Counter => {
            let c = IntCounter::new(s.name, s.help)?;
            registry.register(Box::new(c.clone()))?;
            Handle::Counter(c)
        }
        SeriesKind::FloatCounter => {
            let c = Counter::new(s.name, s.help)?;
            registry.register(Box::new(c.clone()))?;
            Handle::FloatCounter(c)
        }
        SeriesKind::Gauge => {
            let g = Gauge::new(s.name, s.help)?;
            registry.register(Box::new(g.clone()))?;
            Handle::Gauge(g)
        }
        SeriesKind::IntGauge => {
            let g = IntGauge::new(s.name, s.help)?;
            registry.register(Box::new(g.clone()))?;
            Handle::IntGauge(g)
        }
        SeriesKind::CounterVec => {
            let c = IntCounterVec::new(Opts::new(s.name, s.help), &s.labels)?;
            registry.register(Box::new(c.clone()))?;
            Handle::CounterVec(c)
        }
        SeriesKind::GaugeVec => {
            let g = GaugeVec::new(Opts::new(s.name, s.help), &s.labels)?;
            registry.register(Box::new(g.clone()))?;
            Handle::GaugeVec(g)
        }
        SeriesKind::HistogramVec => {
            let edges = s.edges.iter().map(|n| *n as f64 / NANOS_PER_SEC).collect();
            let h = HistogramVec::new(HistogramOpts::new(s.name, s.help).buckets(edges), &s.labels)?;
            registry.register(Box::new(h.clone()))?;
            Handle::HistogramVec(h)
        }
    })
}

impl Published {
    fn new() -> Self {
        let registry = Registry::new();
        let mut handles = HashMap::new();
        for s in &Metrics::new(true).series {
            handles.insert(s.name, handle(&registry, s).expect("registry"));
        }
        Published { registry, handles }
    }

    fn set(&self, readings: &[Reading]) {
        for r in readings {
            let labels: Vec<&str> = r.labels.iter().map(String::as_str).collect();
            let value = match r.amount {
                Amount::Count(n) => n as f64,
                Amount::Nanos(n) => n as f64 / NANOS_PER_SEC,
                Amount::Unlimited => f64::INFINITY,
            };
            match &self.handles[r.name] {
                Handle::Gauge(g) => g.set(value),
                Handle::IntGauge(g) => g.set(value as i64),
                Handle::GaugeVec(g) => g.with_label_values(&labels).set(value),
                _ => panic!("{} is no gauge", r.name),
            }
        }
    }

    fn encode(&self) -> String {
        let mut buf = Vec::new();
        TextEncoder::new().encode(&self.registry.gather(), &mut buf).expect("encode");
        String::from_utf8(buf).expect("utf8")
    }

    /// A scrape that finds `samples`.
    fn scrape(&self, samples: &Samples) -> String {
        self.set(&refresh(samples));
        self.encode()
    }

    fn counter_vec(&self, name: &str) -> &IntCounterVec {
        match &self.handles[name] {
            Handle::CounterVec(c) => c,
            _ => panic!("{name} is no labelled counter"),
        }
    }

    fn histogram_vec(&self, name: &str) -> &HistogramVec {
        match &self.handles[name] {
            Handle::HistogramVec(h) => h,
            _ => panic!("{name} is no histogram"),
        }
    }

    fn observe_phase(&self, phase: &str, secs: f64) {
        self.histogram_vec(SCATTER_PHASE_SECONDS).with_label_values(&[phase]).observe(secs);
    }
}

/// A node with nothing wired.
fn idle() -> Samples<'static> {
    Samples {
        tcp: "",
        tcp6: "",
        cgroup: None,
        malloc: None,
        pinned_bytes: None,
        staging: None,
        windows: None,
        store: None,
        devices: &[],
        rdma: None,
    }
}

fn rows<'a>(text: &'a str, series: &str) -> Vec<&'a str> {
    text.lines().filter(|l| l.starts_with(series)).collect()
}

fn chunk_store() -> StoreSample {
    StoreSample {
        hits: 1,
        misses: 2,
        read_bytes: 8192,
        written_bytes: 8192,
        writes: 1,
        write_dedups: 0,
        evictions: 0,
        key_mismatches: 0,
        crc_mismatches: 0,
        corrupt_slots: 0,
        io_errors: 0,
        scan_recovered: 0,
        mean_read_nanos: Some(500_000_000),
        read_nanos_max: 500_000_000,
        mean_service_nanos: Some(250_000_000),
        service_nanos_max: 250_000_000,
        mean_queue_nanos: None,
        service_nanos_total: 250_000_000,
        read_nanos_total: 500_000_000,
        scan_nanos: 0,
        slots_used: 1,
        slots_capacity: 4,
    }
}

#[test]
fn every_series_is_registered_once() {
    let mut seen = BTreeSet::new();
    for s in &Metrics::new(true).series {
        assert!(seen.insert(s.name), "{} is there twice", s.name);
        assert!(!s.help.is_empty());
        assert!(s.edges.windows(2).all(|w| w[0] < w[1]), "{} has edges out of order", s.name);
        assert_eq!(s.edges.is_empty(), s.kind != SeriesKind::HistogramVec, "{}", s.name);
    }
    assert_eq!(seen.len(), 123);
    // The plane's series are there only where the node has one.
    let without: BTreeSet<&str> = Metrics::new(false).series.iter().map(|s| s.name).collect();
    assert_eq!(without.len(), 106);
    assert!(!without.contains("pacer_rdma_rail"));
    assert!(without.is_subset(&seen));
    // A registry refuses a name that it holds, and takes all of these.
    assert_eq!(Published::new().handles.len(), seen.len());
}

#[test]
fn a_series_keeps_its_help_and_its_labels() {
    let all = Metrics::new(true).series;
    let of = |name: &str| all.iter().find(|s| s.name == name).expect("registered");
    assert_eq!(of("pacer_cache_hits_total").help, "GETs served from cache");
    assert_eq!(of("pacer_cache_hits_total").kind, SeriesKind::Counter);
    assert_eq!(of("pacer_rdma_rail").labels, vec!["rail", "numa", "metric"]);
    assert_eq!(of("pacer_memory_budget_bytes").labels, vec!["term", "counted"]);
    assert_eq!(of("pacer_delivery_register_seconds_total").kind, SeriesKind::FloatCounter);
    assert_eq!(
        of("pacer_dir_rpc_seconds").edges,
        vec![500, 1_000, 2_500, 5_000, 10_000, 25_000, 50_000, 100_000, 500_000, 1_000_000, 5_000_000]
    );
    assert_eq!(of("pacer_delivery_chunk_seconds").edges.last(), Some(&512_000_000));
}

#[test]
fn chunk_store_series_exist_and_read_zero_without_a_store() {
    let text = Published::new().scrape(&idle());
    for series in [
        "pacer_chunk_store_hits_total",
        "pacer_chunk_store_read_bytes_total",
        "pacer_chunk_store_read_seconds_mean",
        "pacer_chunk_store_key_mismatches_total",
        "pacer_chunk_store_slots_capacity",
        "pacer_chunk_store_scan_seconds",
    ] {
        assert!(text.contains(series), "{series} must be registered");
        assert!(
            text.contains(&format!("{series} 0")),
            "{series} must read 0 with no store wired"
        );
    }
}

#[test]
fn a_wired_store_is_told_in_its_own_units() {
    let metrics = Published::new();
    let text = metrics.scrape(&Samples { store: Some(chunk_store()), ..idle() });
    for line in [
        "pacer_chunk_store_hits_total 1",
        "pacer_chunk_store_misses_total 2",
        "pacer_chunk_store_writes_total 1",
        "pacer_chunk_store_read_bytes_total 8192",
        "pacer_chunk_store_written_bytes_total 8192",
        "pacer_chunk_store_slots_used 1",
        "pacer_chunk_store_slots_capacity 4",
        "pacer_chunk_store_key_mismatches_total 0",
        "pacer_chunk_store_read_seconds_mean 0.5",
        "pacer_chunk_store_read_seconds_total 0.5",
        "pacer_chunk_store_service_seconds_total 0.25",
        "pacer_chunk_store_queue_seconds_mean 0",
    ] {
        assert!(text.lines().any(|l| l == line), "{line} is missing");
    }
}

#[test]
fn the_device_series_publish_bytes_per_device_and_keep_reads_apart_from_writes() {
    const READ: u64 = 8 << 20;
    const WRITTEN: u64 = 1 << 20;
    let metrics = Published::new();
    metrics.set(&publish_device_counters(&[DeviceCounters {
        device: "nvme1n1".to_owned(),
        read_bytes: READ,
        written_bytes: WRITTEN,
    }]));
    let text = metrics.encode();
    assert!(
        text.contains(&format!(
            "pacer_node_device_read_bytes_total{{device=\"nvme1n1\"}} {READ}"
        )),
        "the read gauge must carry bytes under a device label; got:\n{text}"
    );
    assert!(
        text.contains(&format!(
            "pacer_node_device_written_bytes_total{{device=\"nvme1n1\"}} {WRITTEN}"
        )),
        "the write gauge must be separate from the read gauge; got:\n{text}"
    );
}

#[test]
fn an_unresolvable_cache_dir_publishes_no_device_series_rather_than_zero() {
    let text = Published::new().scrape(&idle());
    assert!(
        !text.contains("pacer_node_device_read_bytes_total{"),
        "no device may be published before one is resolved; got:\n{text}"
    );
}

#[test]
fn a_failed_delivery_write_is_countable_and_apart_from_a_decline() {
    const FLUSHED: &str = "work_request_flushed";
    const WORK_REQUESTS: usize = 4;

    let metrics = Published::new();
    let text = metrics.scrape(&idle());
    assert!(rows(&text, "pacer_delivery_write_failures_total").is_empty());

    for _ in 0..WORK_REQUESTS {
        metrics.counter_vec(DELIVERY_WRITE_FAILURES_TOTAL).with_label_values(&[FLUSHED]).inc();
    }
    let text = metrics.scrape(&idle());
    assert_eq!(
        rows(&text, "pacer_delivery_write_failures_total"),
        vec![format!(
            "pacer_delivery_write_failures_total{{reason=\"{FLUSHED}\"}} {WORK_REQUESTS}"
        )],
        "the failure must reach the scrape under its status, and under no other"
    );
    assert!(
        rows(&text, "pacer_delivery_declines_total").is_empty(),
        "a failure must not increment the benign-decline series"
    );
    assert_eq!(rows(&text, "pacer_delivery_requests_total"), vec!["pacer_delivery_requests_total 0"]);
}

#[test]
fn the_unobserved_completion_failure_gauge_is_registered_and_reads_zero() {
    let text = Published::new().scrape(&idle());
    assert!(
        text.contains("pacer_rdma_unobserved_completion_failures_total 0"),
        "the gauge must publish 0 before any transport is wired; scrape said: {:?}",
        text.lines().find(|l| l.contains("unobserved_completion_failures"))
    );
}

const SCATTER_BOUND_SERIES: [&str; 6] = [
    "pacer_scatter_staged_bytes",
    "pacer_scatter_staged_bytes_peak",
    "pacer_scatter_staging_budget_bytes",
    "pacer_scatter_windows_in_flight",
    "pacer_scatter_windows_in_flight_peak",
    "pacer_scatter_windows_in_flight_limit",
];

#[test]
fn scatter_bound_series_exist_and_read_zero_without_a_scatter() {
    let text = Published::new().scrape(&idle());
    for series in SCATTER_BOUND_SERIES {
        assert!(text.contains(series), "{series} must be registered");
        assert!(
            text.contains(&format!("{series} 0")),
            "{series} must read 0 on a node with no scatter wired"
        );
    }
}

#[test]
fn wiring_the_scatter_bounds_publishes_its_peaks_and_its_ceilings() {
    const BODY: usize = 8 << 10;
    const BUDGET: usize = 2 * BODY;
    const SLOTS: u64 = 4;

    let mut staging = StagingArea::new(BUDGET, Span::from_secs(900));
    staging.try_stage_at("b/k#100:0", "up-1", Bytes::from(vec![7u8; BODY]), Moment { nanos: 0 });
    staging.commit("up-1");
    // One slot was taken and given back.
    let windows = WindowSlots { in_flight: 0, peak: 1, limit: SLOTS };

    let metrics = Published::new();
    metrics.set(&refresh_scatter(Some(&staging), Some(windows)));
    let text = metrics.encode();
    for (series, want) in [
        ("pacer_scatter_staged_bytes", 0),
        ("pacer_scatter_staged_bytes_peak", BODY),
        ("pacer_scatter_staging_budget_bytes", BUDGET),
        ("pacer_scatter_windows_in_flight", 0),
        ("pacer_scatter_windows_in_flight_peak", 1),
        ("pacer_scatter_windows_in_flight_limit", SLOTS as usize),
    ] {
        assert!(
            text.contains(&format!("{series} {want}")),
            "{series} must read {want}; scrape said: {:?}",
            text.lines().find(|l| l.starts_with(series))
        );
    }
}

const SCATTER_PHASES: [&str; 8] = [
    SCATTER_PHASE_PERMIT_WAIT,
    SCATTER_PHASE_OWNER_RPC,
    SCATTER_PHASE_OWNER_REFUSED,
    SCATTER_PHASE_OWNER_FAILED,
    SCATTER_PHASE_LOCAL_UPLOAD,
    SCATTER_PHASE_COMPLETE,
    SCATTER_PHASE_SERVED_STAGE,
    SCATTER_PHASE_SERVED_UPLOAD,
];

fn phase_buckets(text: &str, phase: &str) -> Vec<(f64, u64)> {
    let prefix = format!("pacer_scatter_phase_seconds_bucket{{phase=\"{phase}\",le=\"");
    let mut out: Vec<(f64, u64)> = text
        .lines()
        .filter_map(|l| l.strip_prefix(&prefix))
        .filter_map(|rest| {
            let (le, count) = rest.split_once("\"} ")?;
            Some((le.parse().ok()?, count.trim().parse().ok()?))
        })
        .collect();
    out.sort_by(|a, b| a.0.total_cmp(&b.0));
    out
}

#[test]
fn a_scatter_phase_is_absent_until_something_is_observed_into_it() {
    let metrics = Published::new();
    let idle_text = metrics.scrape(&idle());
    assert!(
        !idle_text.contains("pacer_scatter_phase_seconds"),
        "an unobserved family is dropped from a scrape; it said: {:?}",
        idle_text.lines().filter(|l| l.contains("phase_seconds")).collect::<Vec<_>>()
    );

    metrics.observe_phase(SCATTER_PHASE_PERMIT_WAIT, 0.001);
    let text = metrics.scrape(&idle());
    assert!(text.contains("pacer_scatter_phase_seconds"));
    for phase in SCATTER_PHASES {
        if phase == SCATTER_PHASE_PERMIT_WAIT {
            continue;
        }
        assert!(
            !text.contains(&format!("pacer_scatter_phase_seconds_count{{phase=\"{phase}\"}}")),
            "{phase} has no observations, so it must not publish a child series"
        );
    }
}

const DELIVERY_STAGES: [&str; 4] = [
    DELIVERY_STAGE_CACHE_READ,
    DELIVERY_STAGE_COPY,
    DELIVERY_STAGE_RDMA_WRITE,
    DELIVERY_STAGE_DIGEST,
];

#[test]
fn a_delivery_stage_is_absent_until_observed_and_never_shares_a_label() {
    let mut seen = BTreeSet::new();
    for stage in DELIVERY_STAGES {
        assert!(seen.insert(stage), "two delivery stages share the label {stage:?}");
    }

    let metrics = Published::new();
    assert!(
        !metrics.scrape(&idle()).contains("pacer_delivery_stage_seconds"),
        "an unobserved family is dropped from a scrape"
    );

    metrics
        .histogram_vec(DELIVERY_STAGE_SECONDS)
        .with_label_values(&[DELIVERY_STAGE_RDMA_WRITE])
        .observe(0.25);
    let text = metrics.scrape(&idle());
    assert!(text.contains("pacer_delivery_stage_seconds_sum{stage=\"rdma_write\"} 0.25"));
    for stage in DELIVERY_STAGES {
        if stage == DELIVERY_STAGE_RDMA_WRITE {
            continue;
        }
        assert!(
            !text.contains(&format!("pacer_delivery_stage_seconds_count{{stage=\"{stage}\"}}")),
            "{stage} has no observations, so it must not publish a child series"
        );
    }
}

#[test]
fn an_observation_lands_in_its_own_phase_and_creates_no_other() {
    let metrics = Published::new();
    metrics.observe_phase(SCATTER_PHASE_OWNER_RPC, 1.234);
    let text = metrics.scrape(&idle());
    assert!(
        text.contains("pacer_scatter_phase_seconds_count{phase=\"owner_rpc\"} 1"),
        "one observation, one sample; scrape said {:?}",
        text.lines().filter(|l| l.contains("phase_seconds_count")).collect::<Vec<_>>()
    );
    assert!(
        text.contains("pacer_scatter_phase_seconds_sum{phase=\"owner_rpc\"} 1.234"),
        "the sum must be SECONDS, not millis or nanos; scrape said {:?}",
        text.lines().find(|l| l.contains("phase_seconds_sum"))
    );
    for phase in SCATTER_PHASES {
        if phase == SCATTER_PHASE_OWNER_RPC {
            continue;
        }
        assert!(
            phase_buckets(&text, phase).is_empty(),
            "{phase} was never observed and must stay absent"
        );
    }
}

#[test]
fn the_phase_buckets_separate_the_two_measured_operating_points() {
    const AT_DEFAULT_CEILINGS: f64 = 0.42;
    const AT_LIFTED_CEILINGS: f64 = 1.14;

    let metrics = Published::new();
    for secs in [AT_DEFAULT_CEILINGS, AT_LIFTED_CEILINGS] {
        metrics.observe_phase(SCATTER_PHASE_OWNER_RPC, secs);
    }
    let buckets = phase_buckets(&metrics.scrape(&idle()), SCATTER_PHASE_OWNER_RPC);
    assert!(!buckets.is_empty(), "the phase must publish buckets");
    assert!(
        buckets.iter().any(|(_, count)| *count == 1),
        "no bucket edge lies between {AT_DEFAULT_CEILINGS}s and {AT_LIFTED_CEILINGS}s, \
         so the two measured operating points are indistinguishable: {buckets:?}"
    );
    let (last_finite, count) =
        *buckets.iter().rfind(|(le, _)| le.is_finite()).expect("a finite top edge");
    assert_eq!(
        count, 2,
        "both samples must land under the top finite edge ({last_finite}s); \
         anything above it is unresolvable"
    );
}

#[test]
fn cgroup_series_are_registered_on_every_platform() {
    let text = Published::new().scrape(&idle());
    for series in [
        "pacer_cgroup_memory_current_bytes",
        "pacer_cgroup_memory_max_bytes",
        "pacer_cgroup_memory_file_bytes",
        "pacer_cgroup_memory_file_dirty_bytes",
        "pacer_cgroup_memory_file_writeback_bytes",
        "pacer_cgroup_memory_anon_bytes",
        "pacer_cgroup_memory_oom_total",
        "pacer_cgroup_memory_oom_kill_total",
    ] {
        assert!(text.contains(series), "{series} must be registered");
    }
}

#[test]
fn scraping_twice_is_safe() {
    let metrics = Published::new();
    let first = metrics.scrape(&idle());
    let second = metrics.scrape(&idle());
    assert!(first.contains("pacer_cgroup_memory_current_bytes"));
    assert!(second.contains("pacer_cgroup_memory_current_bytes"));
}

fn cgroup(current: Option<u64>, max: Option<u64>) -> CgroupSample {
    CgroupSample {
        current_bytes: current,
        max_bytes: max,
        file_bytes: None,
        file_dirty_bytes: None,
        file_writeback_bytes: None,
        anon_bytes: Some(7),
        oom_events: None,
        oom_kill_events: Some(2),
    }
}

#[test]
fn an_unlimited_limit_encodes_as_infinity_not_zero() {
    let metrics = Published::new();
    let text = metrics.scrape(&Samples { cgroup: Some(cgroup(Some(5), None)), ..idle() });
    let value = text
        .lines()
        .find_map(|l| l.strip_prefix("pacer_cgroup_memory_max_bytes "))
        .expect("the limit series is present");
    assert_eq!(value, "inf", "unlimited rendered as {value:?}");
    let parsed: f64 = value.parse().expect("the rendered limit parses as a float");
    assert!(
        parsed.is_infinite() && parsed.is_sign_positive(),
        "an unlimited cgroup must not publish a finite limit: {parsed}"
    );
}

#[test]
fn a_number_that_is_not_told_stays_as_it_was() {
    let metrics = Published::new();
    metrics.scrape(&Samples { cgroup: Some(cgroup(Some(5), Some(100))), ..idle() });
    let text = metrics.scrape(&Samples { cgroup: Some(cgroup(None, Some(200))), ..idle() });
    assert_eq!(
        rows(&text, "pacer_cgroup_memory_current_bytes"),
        vec!["pacer_cgroup_memory_current_bytes 5"]
    );
    assert_eq!(rows(&text, "pacer_cgroup_memory_max_bytes"), vec!["pacer_cgroup_memory_max_bytes 200"]);
    assert_eq!(rows(&text, "pacer_cgroup_memory_anon_bytes"), vec!["pacer_cgroup_memory_anon_bytes 7"]);
    assert_eq!(
        rows(&text, "pacer_cgroup_memory_oom_kill_total"),
        vec!["pacer_cgroup_memory_oom_kill_total 2"]
    );
}

#[test]
fn only_what_counts_is_in_the_total_of_the_budget() {
    let term = |label: &str, counted: bool, bytes: u64| BudgetTerm {
        label: label.to_owned(),
        counted,
        bytes,
    };
    let metrics = Published::new();
    metrics.set(&set_memory_budget(&[
        term("cache", true, 40),
        term("page_cache", false, 1000),
        term("staging", true, 2),
    ]));
    let text = metrics.encode();
    for line in [
        "pacer_memory_budget_bytes{counted=\"true\",term=\"cache\"} 40",
        "pacer_memory_budget_bytes{counted=\"false\",term=\"page_cache\"} 1000",
        "pacer_memory_budget_bytes{counted=\"true\",term=\"staging\"} 2",
        "pacer_memory_budget_total_bytes 42",
    ] {
        assert!(text.lines().any(|l| l == line), "missing or mislabelled: {line}");
    }
}

#[test]
fn a_whole_scrape_reaches_every_gauge() {
    let tcp = "h\n 0: 0100007F:2382 1D02A8C0:01BB 01 x\n 1: 0100007F:2383 1D02A8C0:01BB 01 x\n";
    let staging = StagingArea::new(64, Span::from_secs(900));
    let rail = RailSample {
        rail: 3,
        numa_node: None,
        writes_in_flight: 1,
        writes_total: 10,
        write_bytes_total: 100,
        ranges_in_use: 4,
        staging_in_use: 5,
        staging_ranges: 6,
        ah_evictions: 7,
    };
    let rdma = RdmaSample {
        client_ah_entries: 1,
        client_ready_entries: 2,
        announced_entries: 3,
        evictions: vec![("cap".to_owned(), 9), ("ttl".to_owned(), 8)],
        holder_copy_nanos: 1_500_000_000,
        requester_copy_nanos: 0,
        requester_slots_in_use: 4,
        rail_count: 2,
        post_batch_nanos: 0,
        write_completion_wait_nanos: 0,
        cq_errors: 0,
        unobserved_completion_failures: 5,
        unknown_peer_retries: 6,
        unknown_peer_declines: 7,
        write_sources_orphaned: 8,
        write_sources_held: 9,
        rails: vec![rail, RailSample { rail: 4, numa_node: Some(1), ..rail }],
    };
    let metrics = Published::new();
    metrics.set(&evictions_at_first(&["cap".to_owned(), "explicit".to_owned()]));
    let text = metrics.scrape(&Samples {
        tcp,
        cgroup: Some(cgroup(Some(1), Some(2))),
        malloc: Some(MallocSample {
            heap_bytes: 11,
            mmapped_bytes: 12,
            in_use_bytes: 13,
            free_retained_bytes: 14,
        }),
        pinned_bytes: Some(15),
        staging: Some(&staging),
        windows: Some(WindowSlots { in_flight: 1, peak: 2, limit: 3 }),
        store: Some(chunk_store()),
        rdma: Some(&rdma),
        ..idle()
    });
    for line in [
        "pacer_backend_connections 2",
        "pacer_backend_peer_endpoints 1",
        "pacer_malloc_heap_bytes 11",
        "pacer_malloc_mmapped_bytes 12",
        "pacer_malloc_in_use_bytes 13",
        "pacer_malloc_free_retained_bytes 14",
        "pacer_delivery_pinned_bytes 15",
        "pacer_scatter_staging_budget_bytes 64",
        "pacer_efa_client_ah_entries 1",
        "pacer_efa_client_evictions_total{reason=\"cap\"} 9",
        "pacer_efa_client_evictions_total{reason=\"ttl\"} 8",
        "pacer_efa_client_evictions_total{reason=\"explicit\"} 0",
        "pacer_rdma_holder_copy_seconds_total 1.5",
        "pacer_rdma_rails 2",
        "pacer_rdma_unobserved_completion_failures_total 5",
        "pacer_delivery_unknown_peer_retries_total 6",
        "pacer_delivery_unknown_peer_declines_total 7",
        "pacer_rdma_write_sources_orphaned_total 8",
        "pacer_rdma_write_sources_held 9",
        "pacer_rdma_rail{metric=\"writes_total\",numa=\"unknown\",rail=\"3\"} 10",
        "pacer_rdma_rail{metric=\"ah_evictions\",numa=\"1\",rail=\"4\"} 7",
    ] {
        assert!(text.lines().any(|l| l == line), "{line} is missing:\n{text}");
    }
    assert!(refresh_rdma_copy(None).is_empty());
}
