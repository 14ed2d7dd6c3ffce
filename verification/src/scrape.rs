//! What a scrape sets the gauges to: which number of which sample goes to which series.

use crate::procfs::parse_established_peers;
use crate::procfs::readings;
use crate::procfs::table_peers;
use crate::series::{
    BACKEND_CONNECTIONS, BACKEND_PEER_ENDPOINTS, CGROUP_MEMORY_ANON_BYTES,
    CGROUP_MEMORY_CURRENT_BYTES, CGROUP_MEMORY_FILE_BYTES, CGROUP_MEMORY_FILE_DIRTY_BYTES,
    CGROUP_MEMORY_FILE_WRITEBACK_BYTES, CGROUP_MEMORY_MAX_BYTES, CGROUP_MEMORY_OOM_KILL_TOTAL,
    CGROUP_MEMORY_OOM_TOTAL, CHUNK_STORE_CORRUPT_SLOTS_TOTAL, CHUNK_STORE_CRC_MISMATCHES_TOTAL,
    CHUNK_STORE_EVICTIONS_TOTAL, CHUNK_STORE_HITS_TOTAL, CHUNK_STORE_IO_ERRORS_TOTAL,
    CHUNK_STORE_KEY_MISMATCHES_TOTAL, CHUNK_STORE_MISSES_TOTAL, CHUNK_STORE_QUEUE_SECONDS_MEAN,
    CHUNK_STORE_READ_BYTES_TOTAL, CHUNK_STORE_READ_SECONDS_MAX, CHUNK_STORE_READ_SECONDS_MEAN,
    CHUNK_STORE_READ_SECONDS_TOTAL, CHUNK_STORE_SCAN_RECOVERED, CHUNK_STORE_SCAN_SECONDS,
    CHUNK_STORE_SERVICE_SECONDS_MAX, CHUNK_STORE_SERVICE_SECONDS_MEAN,
    CHUNK_STORE_SERVICE_SECONDS_TOTAL, CHUNK_STORE_SLOTS_CAPACITY, CHUNK_STORE_SLOTS_USED,
    CHUNK_STORE_WRITES_TOTAL, CHUNK_STORE_WRITE_DEDUPS_TOTAL, CHUNK_STORE_WRITTEN_BYTES_TOTAL,
    DELIVERY_PINNED_BYTES, DELIVERY_UNKNOWN_PEER_DECLINES_TOTAL,
    DELIVERY_UNKNOWN_PEER_RETRIES_TOTAL, EFA_ANNOUNCED_ENTRIES, EFA_CLIENT_AH_ENTRIES,
    EFA_CLIENT_EVICTIONS_TOTAL, EFA_CLIENT_READY_ENTRIES, MALLOC_FREE_RETAINED_BYTES,
    MALLOC_HEAP_BYTES, MALLOC_IN_USE_BYTES, MALLOC_MMAPPED_BYTES, MEMORY_BUDGET_BYTES,
    MEMORY_BUDGET_TOTAL_BYTES, NODE_DEVICE_READ_BYTES_TOTAL, NODE_DEVICE_WRITTEN_BYTES_TOTAL,
    RDMA_CQ_ERRORS_TOTAL, RDMA_HOLDER_COPY_SECONDS_TOTAL, RDMA_POST_BATCH_SECONDS_TOTAL,
    RDMA_RAIL, RDMA_RAILS, RDMA_REQUESTER_COPY_SECONDS_TOTAL, RDMA_REQUESTER_SLOTS_IN_USE,
    RDMA_UNOBSERVED_COMPLETION_FAILURES_TOTAL, RDMA_WRITE_COMPLETION_WAIT_SECONDS_TOTAL,
    RDMA_WRITE_SOURCES_HELD, RDMA_WRITE_SOURCES_ORPHANED_TOTAL, SCATTER_STAGED_BYTES,
    SCATTER_STAGED_BYTES_PEAK, SCATTER_STAGING_BUDGET_BYTES, SCATTER_WINDOWS_IN_FLIGHT,
    SCATTER_WINDOWS_IN_FLIGHT_LIMIT, SCATTER_WINDOWS_IN_FLIGHT_PEAK,
};
use crate::staging::StagingArea;
use crate::staging::total_len;
use crate::text::decimal;
use crate::text::push_decimal;
use vstd::prelude::*;

verus! {

// ---- readings ----

/// A number that a gauge is set to.
#[derive(Clone, Copy, Debug, PartialEq, Eq, Structural)]
pub enum Amount {
    /// That many.
    Count(u64),
    /// That many nanoseconds, told in seconds.
    Nanos(u64),
    /// No limit, told as infinity.
    Unlimited,
}

/// What a gauge is set to.
#[derive(Debug)]
pub struct Reading {
    /// The name of the series.
    pub name: &'static str,
    /// The values of its labels.
    pub labels: Vec<String>,
    /// What it is set to.
    pub amount: Amount,
}

/// What a reading says.
pub struct Reported {
    pub name: Seq<char>,
    pub labels: Seq<Seq<char>>,
    pub amount: Amount,
}

/// What each label value of a list says.
pub open spec fn label_values(labels: Seq<String>) -> Seq<Seq<char>> {
    labels.map_values(|l: String| l@)
}

impl View for Reading {
    type V = Reported;

    open spec fn view(&self) -> Reported {
        Reported { name: self.name@, labels: label_values(self.labels@), amount: self.amount }
    }
}

/// What each reading of a list says.
pub open spec fn reported(list: Seq<Reading>) -> Seq<Reported> {
    list.map_values(|r: Reading| r@)
}

/// A reading of a series without labels.
pub open spec fn told(name: &str, amount: Amount) -> Reported {
    Reported { name: name@, labels: Seq::<Seq<char>>::empty(), amount }
}

/// A reading of a series with labels.
pub open spec fn told_of(name: &str, labels: Seq<Seq<char>>, amount: Amount) -> Reported {
    Reported { name: name@, labels, amount }
}

/// A reading of a number that may be missing.
pub open spec fn told_if(name: &str, value: Option<u64>) -> Seq<Reported> {
    match value {
        Some(v) => seq![told(name, Amount::Count(v))],
        None => Seq::empty(),
    }
}

/// Whether a list sets the series of that name, and no labels, to that amount.
pub open spec fn sets(list: Seq<Reported>, name: Seq<char>, amount: Amount) -> bool {
    exists|k: int|
        0 <= k < list.len() && (#[trigger] list[k]).name == name && list[k].labels.len() == 0
            && list[k].amount == amount
}

/// Whether a list sets the series of that name, for those values of its labels, to that amount.
pub open spec fn sets_for(
    list: Seq<Reported>,
    name: Seq<char>,
    labels: Seq<Seq<char>>,
    amount: Amount,
) -> bool {
    exists|k: int|
        0 <= k < list.len() && (#[trigger] list[k]).name == name && list[k].labels == labels
            && list[k].amount == amount
}

/// How many readings a number that may be missing makes.
pub open spec fn one_if(value: Option<u64>) -> int {
    if value is Some {
        1
    } else {
        0
    }
}

/// What either of two lists holds, both together hold.
proof fn lemma_joined_sets(front: Seq<Reported>, back: Seq<Reported>, r: Reported)
    requires
        front.contains(r) || back.contains(r),
    ensures
        (front + back).contains(r),
{
    if front.contains(r) {
        let k = choose|k: int| 0 <= k < front.len() && front[k] == r;
        assert((front + back)[k] == r);
    } else {
        let k = choose|k: int| 0 <= k < back.len() && back[k] == r;
        assert((front + back)[front.len() + k] == r);
    }
}

/// The mean of nothing is nothing.
pub open spec fn mean(nanos: Option<u64>) -> Amount {
    Amount::Nanos(
        match nanos {
            Some(n) => n,
            None => 0,
        },
    )
}

/// A reading of a series without labels.
fn reading(name: &'static str, amount: Amount) -> (r: Reading)
    ensures
        r@ == told(name, amount),
{
    let r = Reading { name, labels: Vec::new(), amount };
    assert(r@.labels =~= Seq::<Seq<char>>::empty());
    r
}

/// A reading of a series with one label.
fn reading_of(name: &'static str, label: &str, amount: Amount) -> (r: Reading)
    ensures
        r@ == told_of(name, seq![label@], amount),
{
    let r = Reading { name, labels: vec![label.to_owned()], amount };
    assert(r@.labels =~= seq![label@]);
    r
}

/// Add a reading of a number that may be missing.
fn push_if(list: &mut Vec<Reading>, name: &'static str, value: Option<u64>)
    ensures
        reported(final(list)@) == reported(old(list)@) + told_if(name, value),
{
    if let Some(v) = value {
        list.push(reading(name, Amount::Count(v)));
    }
    assert(reported(list@) =~= reported(old(list)@) + told_if(name, value));
}

/// One list after another.
fn joined(list: Vec<Reading>, more: Vec<Reading>) -> (r: Vec<Reading>)
    ensures
        reported(r@) == reported(list@) + reported(more@),
{
    let mut out = list;
    let mut rest = more;
    out.append(&mut rest);
    assert(reported(out@) =~= reported(list@) + reported(more@));
    out
}

// ---- the backend's sockets ----

/// The port that the backend listens on.
pub const BACKEND_PORT: u16 = 443;

/// How many connections to the backend there are, and to how many addresses.
pub open spec fn socket_readings(tcp: &str, tcp6: &str) -> Seq<Reported> {
    let peers = table_peers(readings(seq![tcp, tcp6]), BACKEND_PORT as nat);
    seq![
        told(BACKEND_CONNECTIONS, Amount::Count(peers.len() as u64)),
        told(BACKEND_PEER_ENDPOINTS, Amount::Count(peers.to_set().len() as u64)),
    ]
}

/// The connections of both families to the backend's port, 443, are counted together, and each
/// address that they lead to once.
pub proof fn the_sockets_of_both_families_are_told(tcp: &str, tcp6: &str)
    ensures
        ({
            let peers = table_peers(seq![tcp@], 443) + table_peers(seq![tcp6@], 443);
            &&& sets(
                socket_readings(tcp, tcp6),
                BACKEND_CONNECTIONS@,
                Amount::Count(peers.len() as u64),
            )
            &&& sets(
                socket_readings(tcp, tcp6),
                BACKEND_PEER_ENDPOINTS@,
                Amount::Count(peers.to_set().len() as u64),
            )
        }),
        socket_readings(tcp, tcp6).len() == 2,
{
    let list = socket_readings(tcp, tcp6);
    assert(readings(seq![tcp, tcp6]) =~= seq![tcp@] + seq![tcp6@]);
    crate::procfs::rows_and_tables_count_one_by_one(
        seq![tcp@],
        seq![tcp6@],
        tcp@,
        tcp@,
        tcp@,
        443,
    );
    assert(list[0].name == BACKEND_CONNECTIONS@);
    assert(list[1].name == BACKEND_PEER_ENDPOINTS@);
}

/// How many connections to the backend there are, and to how many addresses, from the
/// kernel's tables of the two address families.
pub fn refresh_backend_sockets(tcp: &str, tcp6: &str) -> (r: Vec<Reading>)
    ensures
        reported(r@) == socket_readings(tcp, tcp6),
{
    let tables = vec![tcp, tcp6];
    let (connections, endpoints) = parse_established_peers(tables.as_slice(), BACKEND_PORT);
    assert(tables@ =~= seq![tcp, tcp6]);
    let list = vec![
        reading(BACKEND_CONNECTIONS, Amount::Count(connections)),
        reading(BACKEND_PEER_ENDPOINTS, Amount::Count(endpoints)),
    ];
    assert(reported(list@) =~= socket_readings(tcp, tcp6));
    list
}

// ---- the control group ----

/// What a control group tells of its memory.
#[derive(Clone, Copy, Debug, PartialEq, Eq)]
pub struct CgroupSample {
    /// What it uses.
    pub current_bytes: Option<u64>,
    /// What it may use; none where it has no limit.
    pub max_bytes: Option<u64>,
    /// Of that, file pages.
    pub file_bytes: Option<u64>,
    /// Of those, pages that are not written yet.
    pub file_dirty_bytes: Option<u64>,
    /// Of those, pages that are being written.
    pub file_writeback_bytes: Option<u64>,
    /// Of that, memory of no file.
    pub anon_bytes: Option<u64>,
    /// How often it ran out.
    pub oom_events: Option<u64>,
    /// How many tasks were ended for that.
    pub oom_kill_events: Option<u64>,
}

/// A limit, or that there is none.
pub open spec fn limit(bytes: Option<u64>) -> Amount {
    match bytes {
        Some(b) => Amount::Count(b),
        None => Amount::Unlimited,
    }
}

/// What the control group says, where there is one. What it does not say stays as it was,
/// but for the limit: one that is not said is none.
pub open spec fn cgroup_readings(sample: Option<CgroupSample>) -> Seq<Reported> {
    match sample {
        Some(s) => told_if(CGROUP_MEMORY_CURRENT_BYTES, s.current_bytes) + told_if(CGROUP_MEMORY_FILE_BYTES, s.file_bytes) + told_if(CGROUP_MEMORY_FILE_DIRTY_BYTES, s.file_dirty_bytes) + told_if(CGROUP_MEMORY_FILE_WRITEBACK_BYTES, s.file_writeback_bytes) + told_if(CGROUP_MEMORY_ANON_BYTES, s.anon_bytes) + told_if(CGROUP_MEMORY_OOM_TOTAL, s.oom_events) + told_if(CGROUP_MEMORY_OOM_KILL_TOTAL, s.oom_kill_events) + seq![told(CGROUP_MEMORY_MAX_BYTES, limit(s.max_bytes))],
        None => Seq::empty(),
    }
}

/// A series that either of two lists sets, both together set.
proof fn lemma_sets_joined(
    front: Seq<Reported>,
    back: Seq<Reported>,
    name: Seq<char>,
    amount: Amount,
)
    requires
        sets(front, name, amount) || sets(back, name, amount),
    ensures
        sets(front + back, name, amount),
{
    let list = front + back;
    if sets(front, name, amount) {
        let k = choose|k: int|
            0 <= k < front.len() && (#[trigger] front[k]).name == name && front[k].labels.len()
                == 0 && front[k].amount == amount;
        assert(list[k] == front[k]);
    } else {
        let k = choose|k: int|
            0 <= k < back.len() && (#[trigger] back[k]).name == name && back[k].labels.len() == 0
                && back[k].amount == amount;
        assert(list[front.len() + k] == back[k]);
    }
}

/// A series that any of eight lists sets, all together set.
proof fn lemma_sets_among(parts: Seq<Seq<Reported>>, k: int, name: Seq<char>, amount: Amount)
    requires
        parts.len() == 8,
        0 <= k < 8,
        sets(parts[k], name, amount),
    ensures
        sets(
            parts[0] + parts[1] + parts[2] + parts[3] + parts[4] + parts[5] + parts[6] + parts[7],
            name,
            amount,
        ),
{
    let b = parts[0] + parts[1];
    let c = b + parts[2];
    let d = c + parts[3];
    let e = d + parts[4];
    let f = e + parts[5];
    let g = f + parts[6];
    if k <= 1 {
        lemma_sets_joined(parts[0], parts[1], name, amount);
    }
    if k <= 2 {
        lemma_sets_joined(b, parts[2], name, amount);
    }
    if k <= 3 {
        lemma_sets_joined(c, parts[3], name, amount);
    }
    if k <= 4 {
        lemma_sets_joined(d, parts[4], name, amount);
    }
    if k <= 5 {
        lemma_sets_joined(e, parts[5], name, amount);
    }
    if k <= 6 {
        lemma_sets_joined(f, parts[6], name, amount);
    }
    lemma_sets_joined(g, parts[7], name, amount);
}

/// A number that is told is set, and one that is not is no reading.
proof fn lemma_told_if(name: &str, value: Option<u64>)
    ensures
        value matches Some(v) ==> sets(told_if(name, value), name@, Amount::Count(v)),
        told_if(name, value).len() == one_if(value),
{
    if value is Some {
        assert(told_if(name, value)[0].name == name@);
    }
}

/// Each number that a control group tells goes to the series of its own name, and one that it does
/// not tell goes nowhere; but a limit that it does not tell is told as none. Without a control
/// group nothing is told.
pub proof fn the_control_group_is_told_field_by_field(s: CgroupSample)
    ensures
        s.current_bytes matches Some(v) ==> sets(
            cgroup_readings(Some(s)),
            CGROUP_MEMORY_CURRENT_BYTES@,
            Amount::Count(v),
        ),
        s.file_bytes matches Some(v) ==> sets(
            cgroup_readings(Some(s)),
            CGROUP_MEMORY_FILE_BYTES@,
            Amount::Count(v),
        ),
        s.file_dirty_bytes matches Some(v) ==> sets(
            cgroup_readings(Some(s)),
            CGROUP_MEMORY_FILE_DIRTY_BYTES@,
            Amount::Count(v),
        ),
        s.file_writeback_bytes matches Some(v) ==> sets(
            cgroup_readings(Some(s)),
            CGROUP_MEMORY_FILE_WRITEBACK_BYTES@,
            Amount::Count(v),
        ),
        s.anon_bytes matches Some(v) ==> sets(
            cgroup_readings(Some(s)),
            CGROUP_MEMORY_ANON_BYTES@,
            Amount::Count(v),
        ),
        s.oom_events matches Some(v) ==> sets(
            cgroup_readings(Some(s)),
            CGROUP_MEMORY_OOM_TOTAL@,
            Amount::Count(v),
        ),
        s.oom_kill_events matches Some(v) ==> sets(
            cgroup_readings(Some(s)),
            CGROUP_MEMORY_OOM_KILL_TOTAL@,
            Amount::Count(v),
        ),
        s.max_bytes matches Some(v) ==> sets(
            cgroup_readings(Some(s)),
            CGROUP_MEMORY_MAX_BYTES@,
            Amount::Count(v),
        ),
        s.max_bytes is None ==> sets(
            cgroup_readings(Some(s)),
            CGROUP_MEMORY_MAX_BYTES@,
            Amount::Unlimited,
        ),
        cgroup_readings(Some(s)).len() == one_if(s.current_bytes) + one_if(s.file_bytes) + one_if(
            s.file_dirty_bytes,
        ) + one_if(s.file_writeback_bytes) + one_if(s.anon_bytes) + one_if(s.oom_events) + one_if(
            s.oom_kill_events,
        ) + 1,
        cgroup_readings(None).len() == 0,
{
    let h = seq![told(CGROUP_MEMORY_MAX_BYTES, limit(s.max_bytes))];
    let parts = seq![
        told_if(CGROUP_MEMORY_CURRENT_BYTES, s.current_bytes),
        told_if(CGROUP_MEMORY_FILE_BYTES, s.file_bytes),
        told_if(CGROUP_MEMORY_FILE_DIRTY_BYTES, s.file_dirty_bytes),
        told_if(CGROUP_MEMORY_FILE_WRITEBACK_BYTES, s.file_writeback_bytes),
        told_if(CGROUP_MEMORY_ANON_BYTES, s.anon_bytes),
        told_if(CGROUP_MEMORY_OOM_TOTAL, s.oom_events),
        told_if(CGROUP_MEMORY_OOM_KILL_TOTAL, s.oom_kill_events),
        h,
    ];
    lemma_told_if(CGROUP_MEMORY_CURRENT_BYTES, s.current_bytes);
    if let Some(v) = s.current_bytes {
        lemma_sets_among(parts, 0, CGROUP_MEMORY_CURRENT_BYTES@, Amount::Count(v));
    }
    lemma_told_if(CGROUP_MEMORY_FILE_BYTES, s.file_bytes);
    if let Some(v) = s.file_bytes {
        lemma_sets_among(parts, 1, CGROUP_MEMORY_FILE_BYTES@, Amount::Count(v));
    }
    lemma_told_if(CGROUP_MEMORY_FILE_DIRTY_BYTES, s.file_dirty_bytes);
    if let Some(v) = s.file_dirty_bytes {
        lemma_sets_among(parts, 2, CGROUP_MEMORY_FILE_DIRTY_BYTES@, Amount::Count(v));
    }
    lemma_told_if(CGROUP_MEMORY_FILE_WRITEBACK_BYTES, s.file_writeback_bytes);
    if let Some(v) = s.file_writeback_bytes {
        lemma_sets_among(parts, 3, CGROUP_MEMORY_FILE_WRITEBACK_BYTES@, Amount::Count(v));
    }
    lemma_told_if(CGROUP_MEMORY_ANON_BYTES, s.anon_bytes);
    if let Some(v) = s.anon_bytes {
        lemma_sets_among(parts, 4, CGROUP_MEMORY_ANON_BYTES@, Amount::Count(v));
    }
    lemma_told_if(CGROUP_MEMORY_OOM_TOTAL, s.oom_events);
    if let Some(v) = s.oom_events {
        lemma_sets_among(parts, 5, CGROUP_MEMORY_OOM_TOTAL@, Amount::Count(v));
    }
    lemma_told_if(CGROUP_MEMORY_OOM_KILL_TOTAL, s.oom_kill_events);
    if let Some(v) = s.oom_kill_events {
        lemma_sets_among(parts, 6, CGROUP_MEMORY_OOM_KILL_TOTAL@, Amount::Count(v));
    }
    assert(h[0].name == CGROUP_MEMORY_MAX_BYTES@);
    lemma_sets_among(parts, 7, CGROUP_MEMORY_MAX_BYTES@, limit(s.max_bytes));
}

/// What the control group says, where there is one.
pub fn refresh_cgroup(sample: Option<CgroupSample>) -> (r: Vec<Reading>)
    ensures
        reported(r@) == cgroup_readings(sample),
{
    let mut list: Vec<Reading> = Vec::new();
    assert(reported(list@) =~= Seq::<Reported>::empty());
    if let Some(s) = sample {
        push_if(&mut list, CGROUP_MEMORY_CURRENT_BYTES, s.current_bytes);
        push_if(&mut list, CGROUP_MEMORY_FILE_BYTES, s.file_bytes);
        push_if(&mut list, CGROUP_MEMORY_FILE_DIRTY_BYTES, s.file_dirty_bytes);
        push_if(&mut list, CGROUP_MEMORY_FILE_WRITEBACK_BYTES, s.file_writeback_bytes);
        push_if(&mut list, CGROUP_MEMORY_ANON_BYTES, s.anon_bytes);
        push_if(&mut list, CGROUP_MEMORY_OOM_TOTAL, s.oom_events);
        push_if(&mut list, CGROUP_MEMORY_OOM_KILL_TOTAL, s.oom_kill_events);
        let max = match s.max_bytes {
            Some(b) => Amount::Count(b),
            None => Amount::Unlimited,
        };
        let ghost before = reported(list@);
        list.push(reading(CGROUP_MEMORY_MAX_BYTES, max));
        assert(reported(list@) =~= before + seq![told(CGROUP_MEMORY_MAX_BYTES, max)]);
        assert(reported(list@) =~= cgroup_readings(sample));
    }
    list
}

// ---- the allocator ----

/// What the allocator tells of itself.
#[derive(Clone, Copy, Debug, PartialEq, Eq)]
pub struct MallocSample {
    /// What it took for its heaps.
    pub heap_bytes: u64,
    /// What it mapped for single blocks.
    pub mmapped_bytes: u64,
    /// What is handed out.
    pub in_use_bytes: u64,
    /// What is free and kept.
    pub free_retained_bytes: u64,
}

/// What the allocator says, where it can be asked.
pub open spec fn malloc_readings(sample: Option<MallocSample>) -> Seq<Reported> {
    match sample {
        Some(s) => seq![
            told(MALLOC_HEAP_BYTES, Amount::Count(s.heap_bytes)),
            told(MALLOC_MMAPPED_BYTES, Amount::Count(s.mmapped_bytes)),
            told(MALLOC_IN_USE_BYTES, Amount::Count(s.in_use_bytes)),
            told(MALLOC_FREE_RETAINED_BYTES, Amount::Count(s.free_retained_bytes)),
        ],
        None => Seq::empty(),
    }
}

/// Each number that the allocator tells goes to the series of its own name.
pub proof fn the_allocator_is_told_field_by_field(s: MallocSample)
    ensures
        sets(malloc_readings(Some(s)), MALLOC_HEAP_BYTES@, Amount::Count(s.heap_bytes)),
        sets(malloc_readings(Some(s)), MALLOC_MMAPPED_BYTES@, Amount::Count(s.mmapped_bytes)),
        sets(malloc_readings(Some(s)), MALLOC_IN_USE_BYTES@, Amount::Count(s.in_use_bytes)),
        sets(malloc_readings(Some(s)), MALLOC_FREE_RETAINED_BYTES@, Amount::Count(s.free_retained_bytes)),
        malloc_readings(Some(s)).len() == 4,
{
    let list = malloc_readings(Some(s));
    assert(list[0].name == MALLOC_HEAP_BYTES@);
    assert(list[1].name == MALLOC_MMAPPED_BYTES@);
    assert(list[2].name == MALLOC_IN_USE_BYTES@);
    assert(list[3].name == MALLOC_FREE_RETAINED_BYTES@);
}

/// What the allocator says, where it can be asked.
pub fn refresh_malloc(sample: Option<MallocSample>) -> (r: Vec<Reading>)
    ensures
        reported(r@) == malloc_readings(sample),
{
    let list = match sample {
        Some(s) => vec![
            reading(MALLOC_HEAP_BYTES, Amount::Count(s.heap_bytes)),
            reading(MALLOC_MMAPPED_BYTES, Amount::Count(s.mmapped_bytes)),
            reading(MALLOC_IN_USE_BYTES, Amount::Count(s.in_use_bytes)),
            reading(MALLOC_FREE_RETAINED_BYTES, Amount::Count(s.free_retained_bytes)),
        ],
        None => Vec::new(),
    };
    assert(reported(list@) =~= malloc_readings(sample));
    list
}

// ---- client memory ----

/// How many client bytes are pinned, where there is a quota on them.
pub open spec fn delivery_readings(in_use: Option<u64>) -> Seq<Reported> {
    told_if(DELIVERY_PINNED_BYTES, in_use)
}

/// The pinned bytes go to the series of their name where there is a quota, and nowhere else.
pub proof fn pinned_bytes_are_told_under_a_quota(v: u64)
    ensures
        delivery_readings(Some(v)).len() == 1,
        sets(delivery_readings(Some(v)), DELIVERY_PINNED_BYTES@, Amount::Count(v)),
        delivery_readings(None).len() == 0,
{
    assert(delivery_readings(Some(v))[0].name == DELIVERY_PINNED_BYTES@);
}

/// How many client bytes are pinned, where there is a quota on them.
pub fn refresh_delivery(in_use: Option<u64>) -> (r: Vec<Reading>)
    ensures
        reported(r@) == delivery_readings(in_use),
{
    let mut list: Vec<Reading> = Vec::new();
    assert(reported(list@) =~= Seq::<Reported>::empty());
    push_if(&mut list, DELIVERY_PINNED_BYTES, in_use);
    assert(reported(list@) =~= delivery_readings(in_use));
    list
}

// ---- the bounds of scattered writes ----

/// The slots that the windows of scattered writes wait for.
#[derive(Clone, Copy, Debug, PartialEq, Eq)]
pub struct WindowSlots {
    /// How many are held.
    pub in_flight: u64,
    /// The most that were ever held.
    pub peak: u64,
    /// How many there are.
    pub limit: u64,
}

/// What is staged, the most that ever was, and the ceiling; where there is a staging area.
pub open spec fn staging_readings(staging: Option<&StagingArea>) -> Seq<Reported> {
    match staging {
        Some(s) => seq![
            told(SCATTER_STAGED_BYTES, Amount::Count(total_len(s@) as u64)),
            told(SCATTER_STAGED_BYTES_PEAK, Amount::Count(s.peak() as u64)),
            told(SCATTER_STAGING_BUDGET_BYTES, Amount::Count(s.budget() as u64)),
        ],
        None => Seq::empty(),
    }
}

/// How many slots are held, the most that ever were, and how many there are; where there
/// are slots.
pub open spec fn slot_readings(windows: Option<WindowSlots>) -> Seq<Reported> {
    match windows {
        Some(s) => seq![
            told(SCATTER_WINDOWS_IN_FLIGHT, Amount::Count(s.in_flight)),
            told(SCATTER_WINDOWS_IN_FLIGHT_PEAK, Amount::Count(s.peak)),
            told(SCATTER_WINDOWS_IN_FLIGHT_LIMIT, Amount::Count(s.limit)),
        ],
        None => Seq::empty(),
    }
}

/// The slots that are held, the most that ever were, and how many there are go each to the series
/// of its own name.
pub proof fn the_slots_are_told_field_by_field(s: WindowSlots)
    ensures
        sets(slot_readings(Some(s)), SCATTER_WINDOWS_IN_FLIGHT@, Amount::Count(s.in_flight)),
        sets(slot_readings(Some(s)), SCATTER_WINDOWS_IN_FLIGHT_PEAK@, Amount::Count(s.peak)),
        sets(slot_readings(Some(s)), SCATTER_WINDOWS_IN_FLIGHT_LIMIT@, Amount::Count(s.limit)),
        slot_readings(Some(s)).len() == 3,
{
    let list = slot_readings(Some(s));
    assert(list[0].name == SCATTER_WINDOWS_IN_FLIGHT@);
    assert(list[1].name == SCATTER_WINDOWS_IN_FLIGHT_PEAK@);
    assert(list[2].name == SCATTER_WINDOWS_IN_FLIGHT_LIMIT@);
}

/// What is staged, the most that ever was, and the ceiling go each to the series of its own name.
pub proof fn the_staging_area_is_told_field_by_field(s: &StagingArea)
    ensures
        sets(
            staging_readings(Some(s)),
            SCATTER_STAGED_BYTES@,
            Amount::Count(total_len(s@) as u64),
        ),
        sets(staging_readings(Some(s)), SCATTER_STAGED_BYTES_PEAK@, Amount::Count(s.peak() as u64)),
        sets(
            staging_readings(Some(s)),
            SCATTER_STAGING_BUDGET_BYTES@,
            Amount::Count(s.budget() as u64),
        ),
        staging_readings(Some(s)).len() == 3,
        staging_readings(None).len() == 0,
{
    let list = staging_readings(Some(s));
    assert(list[0].name == SCATTER_STAGED_BYTES@);
    assert(list[1].name == SCATTER_STAGED_BYTES_PEAK@);
    assert(list[2].name == SCATTER_STAGING_BUDGET_BYTES@);
}

/// How far the scattered writes are from their bounds.
pub fn refresh_scatter(staging: Option<&StagingArea>, windows: Option<WindowSlots>) -> (r: Vec<
    Reading,
>)
    requires
        staging matches Some(s) ==> s.wf(),
    ensures
        reported(r@) == staging_readings(staging) + slot_readings(windows),
{
    let staged = match staging {
        Some(s) => vec![
            reading(SCATTER_STAGED_BYTES, Amount::Count(s.staged_bytes() as u64)),
            reading(SCATTER_STAGED_BYTES_PEAK, Amount::Count(s.staged_bytes_peak() as u64)),
            reading(SCATTER_STAGING_BUDGET_BYTES, Amount::Count(s.budget_bytes() as u64)),
        ],
        None => Vec::new(),
    };
    assert(reported(staged@) =~= staging_readings(staging));
    let slots = match windows {
        Some(s) => vec![
            reading(SCATTER_WINDOWS_IN_FLIGHT, Amount::Count(s.in_flight)),
            reading(SCATTER_WINDOWS_IN_FLIGHT_PEAK, Amount::Count(s.peak)),
            reading(SCATTER_WINDOWS_IN_FLIGHT_LIMIT, Amount::Count(s.limit)),
        ],
        None => Vec::new(),
    };
    assert(reported(slots@) =~= slot_readings(windows));
    joined(staged, slots)
}

/// The mean of nothing is nothing.
fn mean_of(nanos: Option<u64>) -> (r: Amount)
    ensures
        r == mean(nanos),
{
    match nanos {
        Some(n) => Amount::Nanos(n),
        None => Amount::Nanos(0),
    }
}

// ---- the chunk store ----

/// What the chunk store tells of itself.
#[derive(Clone, Copy, Debug, PartialEq, Eq)]
pub struct StoreSample {
    /// Reads that it served.
    pub hits: u64,
    /// Reads of what it did not hold.
    pub misses: u64,
    /// Bytes that it served.
    pub read_bytes: u64,
    /// Bytes that it took.
    pub written_bytes: u64,
    /// Chunks that it took.
    pub writes: u64,
    /// Chunks that it held already.
    pub write_dedups: u64,
    /// Slots that were used again.
    pub evictions: u64,
    /// Slots that named another key.
    pub key_mismatches: u64,
    /// Bodies that failed their checksum.
    pub crc_mismatches: u64,
    /// Slots with an impossible header.
    pub corrupt_slots: u64,
    /// Reads and writes that failed.
    pub io_errors: u64,
    /// Chunks that were found at the start.
    pub scan_recovered: u64,
    /// The mean time of a read.
    pub mean_read_nanos: Option<u64>,
    /// The longest time of a read.
    pub read_nanos_max: u64,
    /// The mean time of a read without its wait.
    pub mean_service_nanos: Option<u64>,
    /// The longest time of a read without its wait.
    pub service_nanos_max: u64,
    /// The mean wait of a read.
    pub mean_queue_nanos: Option<u64>,
    /// The time of all reads without their waits.
    pub service_nanos_total: u64,
    /// The time of all reads.
    pub read_nanos_total: u64,
    /// The time of the search at the start.
    pub scan_nanos: u64,
    /// Slots that hold a chunk.
    pub slots_used: u64,
    /// All slots.
    pub slots_capacity: u64,
}

/// What the chunk store says, where there is one.
pub open spec fn store_readings(sample: Option<StoreSample>) -> Seq<Reported> {
    match sample {
        Some(s) => seq![
            told(CHUNK_STORE_HITS_TOTAL, Amount::Count(s.hits)),
            told(CHUNK_STORE_MISSES_TOTAL, Amount::Count(s.misses)),
            told(CHUNK_STORE_READ_BYTES_TOTAL, Amount::Count(s.read_bytes)),
            told(CHUNK_STORE_WRITTEN_BYTES_TOTAL, Amount::Count(s.written_bytes)),
            told(CHUNK_STORE_WRITES_TOTAL, Amount::Count(s.writes)),
            told(CHUNK_STORE_WRITE_DEDUPS_TOTAL, Amount::Count(s.write_dedups)),
            told(CHUNK_STORE_EVICTIONS_TOTAL, Amount::Count(s.evictions)),
            told(CHUNK_STORE_KEY_MISMATCHES_TOTAL, Amount::Count(s.key_mismatches)),
            told(CHUNK_STORE_CRC_MISMATCHES_TOTAL, Amount::Count(s.crc_mismatches)),
            told(CHUNK_STORE_CORRUPT_SLOTS_TOTAL, Amount::Count(s.corrupt_slots)),
            told(CHUNK_STORE_IO_ERRORS_TOTAL, Amount::Count(s.io_errors)),
            told(CHUNK_STORE_SCAN_RECOVERED, Amount::Count(s.scan_recovered)),
            told(CHUNK_STORE_READ_SECONDS_MEAN, mean(s.mean_read_nanos)),
            told(CHUNK_STORE_READ_SECONDS_MAX, Amount::Nanos(s.read_nanos_max)),
            told(CHUNK_STORE_SERVICE_SECONDS_MEAN, mean(s.mean_service_nanos)),
            told(CHUNK_STORE_SERVICE_SECONDS_MAX, Amount::Nanos(s.service_nanos_max)),
            told(CHUNK_STORE_QUEUE_SECONDS_MEAN, mean(s.mean_queue_nanos)),
            told(CHUNK_STORE_SERVICE_SECONDS_TOTAL, Amount::Nanos(s.service_nanos_total)),
            told(CHUNK_STORE_READ_SECONDS_TOTAL, Amount::Nanos(s.read_nanos_total)),
            told(CHUNK_STORE_SCAN_SECONDS, Amount::Nanos(s.scan_nanos)),
            told(CHUNK_STORE_SLOTS_USED, Amount::Count(s.slots_used)),
            told(CHUNK_STORE_SLOTS_CAPACITY, Amount::Count(s.slots_capacity)),
        ],
        None => Seq::empty(),
    }
}

/// Each number that the chunk store tells goes to the series of its own name, times as times and
/// counts as counts; a mean that there is not yet is told as nothing.
pub proof fn the_store_is_told_field_by_field(s: StoreSample)
    ensures
        sets(store_readings(Some(s)), CHUNK_STORE_HITS_TOTAL@, Amount::Count(s.hits)),
        sets(store_readings(Some(s)), CHUNK_STORE_MISSES_TOTAL@, Amount::Count(s.misses)),
        sets(store_readings(Some(s)), CHUNK_STORE_READ_BYTES_TOTAL@, Amount::Count(s.read_bytes)),
        sets(store_readings(Some(s)), CHUNK_STORE_WRITTEN_BYTES_TOTAL@, Amount::Count(s.written_bytes)),
        sets(store_readings(Some(s)), CHUNK_STORE_WRITES_TOTAL@, Amount::Count(s.writes)),
        sets(store_readings(Some(s)), CHUNK_STORE_WRITE_DEDUPS_TOTAL@, Amount::Count(s.write_dedups)),
        sets(store_readings(Some(s)), CHUNK_STORE_EVICTIONS_TOTAL@, Amount::Count(s.evictions)),
        sets(store_readings(Some(s)), CHUNK_STORE_KEY_MISMATCHES_TOTAL@, Amount::Count(s.key_mismatches)),
        sets(store_readings(Some(s)), CHUNK_STORE_CRC_MISMATCHES_TOTAL@, Amount::Count(s.crc_mismatches)),
        sets(store_readings(Some(s)), CHUNK_STORE_CORRUPT_SLOTS_TOTAL@, Amount::Count(s.corrupt_slots)),
        sets(store_readings(Some(s)), CHUNK_STORE_IO_ERRORS_TOTAL@, Amount::Count(s.io_errors)),
        sets(store_readings(Some(s)), CHUNK_STORE_SCAN_RECOVERED@, Amount::Count(s.scan_recovered)),
        sets(
            store_readings(Some(s)),
            CHUNK_STORE_READ_SECONDS_MEAN@,
            Amount::Nanos(
                if s.mean_read_nanos is Some {
                    s.mean_read_nanos->Some_0
                } else {
                    0
                },
            ),
        ),
        sets(store_readings(Some(s)), CHUNK_STORE_READ_SECONDS_MAX@, Amount::Nanos(s.read_nanos_max)),
        sets(
            store_readings(Some(s)),
            CHUNK_STORE_SERVICE_SECONDS_MEAN@,
            Amount::Nanos(
                if s.mean_service_nanos is Some {
                    s.mean_service_nanos->Some_0
                } else {
                    0
                },
            ),
        ),
        sets(store_readings(Some(s)), CHUNK_STORE_SERVICE_SECONDS_MAX@, Amount::Nanos(s.service_nanos_max)),
        sets(
            store_readings(Some(s)),
            CHUNK_STORE_QUEUE_SECONDS_MEAN@,
            Amount::Nanos(
                if s.mean_queue_nanos is Some {
                    s.mean_queue_nanos->Some_0
                } else {
                    0
                },
            ),
        ),
        sets(store_readings(Some(s)), CHUNK_STORE_SERVICE_SECONDS_TOTAL@, Amount::Nanos(s.service_nanos_total)),
        sets(store_readings(Some(s)), CHUNK_STORE_READ_SECONDS_TOTAL@, Amount::Nanos(s.read_nanos_total)),
        sets(store_readings(Some(s)), CHUNK_STORE_SCAN_SECONDS@, Amount::Nanos(s.scan_nanos)),
        sets(store_readings(Some(s)), CHUNK_STORE_SLOTS_USED@, Amount::Count(s.slots_used)),
        sets(store_readings(Some(s)), CHUNK_STORE_SLOTS_CAPACITY@, Amount::Count(s.slots_capacity)),
        store_readings(Some(s)).len() == 22,
{
    let list = store_readings(Some(s));
    assert(list[0].name == CHUNK_STORE_HITS_TOTAL@);
    assert(list[1].name == CHUNK_STORE_MISSES_TOTAL@);
    assert(list[2].name == CHUNK_STORE_READ_BYTES_TOTAL@);
    assert(list[3].name == CHUNK_STORE_WRITTEN_BYTES_TOTAL@);
    assert(list[4].name == CHUNK_STORE_WRITES_TOTAL@);
    assert(list[5].name == CHUNK_STORE_WRITE_DEDUPS_TOTAL@);
    assert(list[6].name == CHUNK_STORE_EVICTIONS_TOTAL@);
    assert(list[7].name == CHUNK_STORE_KEY_MISMATCHES_TOTAL@);
    assert(list[8].name == CHUNK_STORE_CRC_MISMATCHES_TOTAL@);
    assert(list[9].name == CHUNK_STORE_CORRUPT_SLOTS_TOTAL@);
    assert(list[10].name == CHUNK_STORE_IO_ERRORS_TOTAL@);
    assert(list[11].name == CHUNK_STORE_SCAN_RECOVERED@);
    assert(list[12].name == CHUNK_STORE_READ_SECONDS_MEAN@);
    assert(list[13].name == CHUNK_STORE_READ_SECONDS_MAX@);
    assert(list[14].name == CHUNK_STORE_SERVICE_SECONDS_MEAN@);
    assert(list[15].name == CHUNK_STORE_SERVICE_SECONDS_MAX@);
    assert(list[16].name == CHUNK_STORE_QUEUE_SECONDS_MEAN@);
    assert(list[17].name == CHUNK_STORE_SERVICE_SECONDS_TOTAL@);
    assert(list[18].name == CHUNK_STORE_READ_SECONDS_TOTAL@);
    assert(list[19].name == CHUNK_STORE_SCAN_SECONDS@);
    assert(list[20].name == CHUNK_STORE_SLOTS_USED@);
    assert(list[21].name == CHUNK_STORE_SLOTS_CAPACITY@);
}

/// What the chunk store says, where there is one.
pub fn refresh_chunk_store(sample: Option<StoreSample>) -> (r: Vec<Reading>)
    ensures
        reported(r@) == store_readings(sample),
{
    let list = match sample {
        Some(s) => vec![
            reading(CHUNK_STORE_HITS_TOTAL, Amount::Count(s.hits)),
            reading(CHUNK_STORE_MISSES_TOTAL, Amount::Count(s.misses)),
            reading(CHUNK_STORE_READ_BYTES_TOTAL, Amount::Count(s.read_bytes)),
            reading(CHUNK_STORE_WRITTEN_BYTES_TOTAL, Amount::Count(s.written_bytes)),
            reading(CHUNK_STORE_WRITES_TOTAL, Amount::Count(s.writes)),
            reading(CHUNK_STORE_WRITE_DEDUPS_TOTAL, Amount::Count(s.write_dedups)),
            reading(CHUNK_STORE_EVICTIONS_TOTAL, Amount::Count(s.evictions)),
            reading(CHUNK_STORE_KEY_MISMATCHES_TOTAL, Amount::Count(s.key_mismatches)),
            reading(CHUNK_STORE_CRC_MISMATCHES_TOTAL, Amount::Count(s.crc_mismatches)),
            reading(CHUNK_STORE_CORRUPT_SLOTS_TOTAL, Amount::Count(s.corrupt_slots)),
            reading(CHUNK_STORE_IO_ERRORS_TOTAL, Amount::Count(s.io_errors)),
            reading(CHUNK_STORE_SCAN_RECOVERED, Amount::Count(s.scan_recovered)),
            reading(CHUNK_STORE_READ_SECONDS_MEAN, mean_of(s.mean_read_nanos)),
            reading(CHUNK_STORE_READ_SECONDS_MAX, Amount::Nanos(s.read_nanos_max)),
            reading(CHUNK_STORE_SERVICE_SECONDS_MEAN, mean_of(s.mean_service_nanos)),
            reading(CHUNK_STORE_SERVICE_SECONDS_MAX, Amount::Nanos(s.service_nanos_max)),
            reading(CHUNK_STORE_QUEUE_SECONDS_MEAN, mean_of(s.mean_queue_nanos)),
            reading(CHUNK_STORE_SERVICE_SECONDS_TOTAL, Amount::Nanos(s.service_nanos_total)),
            reading(CHUNK_STORE_READ_SECONDS_TOTAL, Amount::Nanos(s.read_nanos_total)),
            reading(CHUNK_STORE_SCAN_SECONDS, Amount::Nanos(s.scan_nanos)),
            reading(CHUNK_STORE_SLOTS_USED, Amount::Count(s.slots_used)),
            reading(CHUNK_STORE_SLOTS_CAPACITY, Amount::Count(s.slots_capacity)),
        ],
        None => Vec::new(),
    };
    assert(reported(list@) =~= store_readings(sample));
    list
}

// ---- the block devices ----

/// What a block device has moved.
#[derive(Debug)]
pub struct DeviceCounters {
    /// Its name.
    pub device: String,
    /// Bytes that were read from it.
    pub read_bytes: u64,
    /// Bytes that were written to it.
    pub written_bytes: u64,
}

/// What one device has moved, reads apart from writes.
pub open spec fn of_device(one: DeviceCounters) -> Seq<Reported> {
    seq![
        told_of(
            NODE_DEVICE_READ_BYTES_TOTAL,
            seq![one.device@],
            Amount::Count(one.read_bytes),
        ),
        told_of(
            NODE_DEVICE_WRITTEN_BYTES_TOTAL,
            seq![one.device@],
            Amount::Count(one.written_bytes),
        ),
    ]
}

/// What each device has moved.
pub open spec fn device_readings(counters: Seq<DeviceCounters>) -> Seq<Reported>
    decreases counters.len(),
{
    if counters.len() == 0 {
        Seq::empty()
    } else {
        device_readings(counters.drop_last()) + of_device(counters.last())
    }
}

/// Each device tells its reads and its writes under its own name: one reading of each, and those of
/// the first device first.
pub proof fn each_device_is_told_by_its_name(
    front: Seq<DeviceCounters>,
    one: DeviceCounters,
    back: Seq<DeviceCounters>,
)
    ensures
        device_readings(front + back) == device_readings(front) + device_readings(back),
        device_readings(seq![one]).len() == 2,
        sets_for(
            device_readings(seq![one]),
            NODE_DEVICE_READ_BYTES_TOTAL@,
            seq![one.device@],
            Amount::Count(one.read_bytes),
        ),
        sets_for(
            device_readings(seq![one]),
            NODE_DEVICE_WRITTEN_BYTES_TOTAL@,
            seq![one.device@],
            Amount::Count(one.written_bytes),
        ),
    decreases back.len(),
{
    reveal_with_fuel(device_readings, 2);
    assert(seq![one].drop_last() =~= Seq::<DeviceCounters>::empty());
    let list = device_readings(seq![one]);
    assert(list[0].name == NODE_DEVICE_READ_BYTES_TOTAL@);
    assert(list[1].name == NODE_DEVICE_WRITTEN_BYTES_TOTAL@);
    if back.len() == 0 {
        assert(front + back =~= front);
        assert(device_readings(front) + device_readings(back) =~= device_readings(front));
    } else {
        each_device_is_told_by_its_name(front, one, back.drop_last());
        assert((front + back).drop_last() =~= front + back.drop_last());
        assert(device_readings(front + back) =~= device_readings(front) + device_readings(back));
    }
}

/// What each device has moved.
pub fn publish_device_counters(counters: &[DeviceCounters]) -> (r: Vec<Reading>)
    ensures
        reported(r@) == device_readings(counters@),
{
    let mut list: Vec<Reading> = Vec::new();
    assert(reported(list@) =~= device_readings(counters@.take(0)));
    for i in 0..counters.len()
        invariant
            reported(list@) == device_readings(counters@.take(i as int)),
    {
        let one = &counters[i];
        let ghost before = reported(list@);
        let name: &str = one.device.as_str();
        list.push(reading_of(NODE_DEVICE_READ_BYTES_TOTAL, name, Amount::Count(one.read_bytes)));
        list.push(
            reading_of(NODE_DEVICE_WRITTEN_BYTES_TOTAL, name, Amount::Count(one.written_bytes)),
        );
        assert(reported(list@) =~= before + of_device(*one));
        assert(counters@.take(i + 1).drop_last() =~= counters@.take(i as int));
    }
    assert(counters@.take(counters@.len() as int) =~= counters@);
    list
}

// ---- the memory budget ----

/// A part of the memory that a node may need.
#[derive(Debug)]
pub struct BudgetTerm {
    /// What it is for.
    pub label: String,
    /// Whether it counts toward the total.
    pub counted: bool,
    /// How much it is.
    pub bytes: u64,
}

/// The value of the label that tells whether a part counts.
pub open spec fn counted_text(counted: bool) -> Seq<char> {
    if counted {
        "true"@
    } else {
        "false"@
    }
}

/// What each part is.
pub open spec fn term_readings(terms: Seq<BudgetTerm>) -> Seq<Reported> {
    terms.map_values(
        |t: BudgetTerm|
            told_of(
                MEMORY_BUDGET_BYTES,
                seq![t.label@, counted_text(t.counted)],
                Amount::Count(t.bytes),
            ),
    )
}

/// What the parts that count come to.
pub open spec fn counted_bytes(terms: Seq<BudgetTerm>) -> nat
    decreases terms.len(),
{
    if terms.len() == 0 {
        0
    } else {
        counted_bytes(terms.drop_last()) + if terms.last().counted {
            terms.last().bytes as nat
        } else {
            0
        }
    }
}

/// Each part of the budget is told by its label, with whether it counts, and only those that count
/// are in the total, each once.
pub proof fn each_part_is_told_and_counts_once(
    front: Seq<BudgetTerm>,
    one: BudgetTerm,
    back: Seq<BudgetTerm>,
    i: int,
)
    ensures
        term_readings(front).len() == front.len(),
        0 <= i < front.len() ==> {
            let r = term_readings(front)[i];
            &&& r.name == MEMORY_BUDGET_BYTES@
            &&& r.labels.len() == 2
            &&& r.labels[0] == front[i].label@
            &&& front[i].counted ==> r.labels[1] == "true"@
            &&& !front[i].counted ==> r.labels[1] == "false"@
            &&& r.amount == Amount::Count(front[i].bytes)
        },
        counted_bytes(front + back) == counted_bytes(front) + counted_bytes(back),
        one.counted ==> counted_bytes(seq![one]) == one.bytes,
        !one.counted ==> counted_bytes(seq![one]) == 0,
    decreases back.len(),
{
    reveal_with_fuel(counted_bytes, 2);
    assert(seq![one].drop_last() =~= Seq::<BudgetTerm>::empty());
    if back.len() == 0 {
        assert(front + back =~= front);
    } else {
        each_part_is_told_and_counts_once(front, one, back.drop_last(), i);
        assert((front + back).drop_last() =~= front + back.drop_last());
    }
}

/// The first parts come to no more than all of them.
proof fn lemma_counted_grows(terms: Seq<BudgetTerm>, n: int)
    requires
        0 <= n <= terms.len(),
    ensures
        counted_bytes(terms.take(n)) <= counted_bytes(terms),
    decreases terms.len() - n,
{
    if n < terms.len() {
        lemma_counted_grows(terms, n + 1);
        assert(terms.take(n + 1).drop_last() =~= terms.take(n));
    } else {
        assert(terms.take(n) =~= terms);
    }
}

/// What each part of the memory budget is, and what those that count come to.
pub fn set_memory_budget(terms: &[BudgetTerm]) -> (r: Vec<Reading>)
    requires
        counted_bytes(terms@) <= u64::MAX,
    ensures
        reported(r@) == term_readings(terms@) + seq![
            told(MEMORY_BUDGET_TOTAL_BYTES, Amount::Count(counted_bytes(terms@) as u64)),
        ],
{
    let mut list: Vec<Reading> = Vec::new();
    let mut total: u64 = 0;
    assert(reported(list@) =~= term_readings(terms@.take(0)));
    for i in 0..terms.len()
        invariant
            counted_bytes(terms@) <= u64::MAX,
            reported(list@) == term_readings(terms@.take(i as int)),
            total == counted_bytes(terms@.take(i as int)),
    {
        let term = &terms[i];
        proof {
            lemma_counted_grows(terms@, i + 1);
            assert(terms@.take(i + 1).drop_last() =~= terms@.take(i as int));
        }
        let counted: &str = if term.counted {
            "true"
        } else {
            "false"
        };
        let r = Reading {
            name: MEMORY_BUDGET_BYTES,
            labels: vec![term.label.clone(), counted.to_owned()],
            amount: Amount::Count(term.bytes),
        };
        assert(r@.labels =~= seq![term.label@, counted@]);
        let ghost before = reported(list@);
        let ghost next = r@;
        list.push(r);
        if term.counted {
            total = total + term.bytes;
        }
        assert(reported(list@) =~= before.push(next));
        assert(term_readings(terms@.take(i + 1)) =~= before.push(next));
    }
    assert(terms@.take(terms@.len() as int) =~= terms@);
    list.push(reading(MEMORY_BUDGET_TOTAL_BYTES, Amount::Count(total)));
    assert(reported(list@) =~= term_readings(terms@) + seq![
        told(MEMORY_BUDGET_TOTAL_BYTES, Amount::Count(total)),
    ]);
    list
}

// ---- the RDMA plane ----

/// A number of a rail.
pub const RAIL_WRITES_IN_FLIGHT: &'static str = "writes_in_flight";

/// A number of a rail.
pub const RAIL_WRITES_TOTAL: &'static str = "writes_total";

/// A number of a rail.
pub const RAIL_WRITE_BYTES_TOTAL: &'static str = "write_bytes_total";

/// A number of a rail.
pub const RAIL_RANGES_IN_USE: &'static str = "ranges_in_use";

/// A number of a rail.
pub const RAIL_STAGING_IN_USE: &'static str = "staging_in_use";

/// A number of a rail.
pub const RAIL_STAGING_RANGES: &'static str = "staging_ranges";

/// A number of a rail.
pub const RAIL_AH_EVICTIONS: &'static str = "ah_evictions";

/// The memory node of a rail that does not know it.
pub const UNKNOWN_NUMA: &'static str = "unknown";

/// What a rail tells of itself.
#[derive(Clone, Copy, Debug, PartialEq, Eq)]
pub struct RailSample {
    /// Which one it is.
    pub rail: u64,
    /// The memory node that it is near.
    pub numa_node: Option<u64>,
    /// Writes that are under way.
    pub writes_in_flight: u64,
    /// Writes so far.
    pub writes_total: u64,
    /// Bytes written so far.
    pub write_bytes_total: u64,
    /// Ranges that are held.
    pub ranges_in_use: u64,
    /// Staging ranges that are held.
    pub staging_in_use: u64,
    /// All staging ranges.
    pub staging_ranges: u64,
    /// Address handles that were dropped.
    pub ah_evictions: u64,
}

/// What the RDMA plane tells of itself.
#[derive(Debug)]
pub struct RdmaSample {
    /// Address handles of clients.
    pub client_ah_entries: u64,
    /// Clients whose first contact is followed.
    pub client_ready_entries: u64,
    /// Clients that know this node.
    pub announced_entries: u64,
    /// For each reason, how many records were dropped.
    pub evictions: Vec<(String, u64)>,
    /// Time of the copies before a write.
    pub holder_copy_nanos: u64,
    /// Time of the copies after a write.
    pub requester_copy_nanos: u64,
    /// Slots that requests hold.
    pub requester_slots_in_use: u64,
    /// How many rails there are.
    pub rail_count: u64,
    /// Time of building and posting writes.
    pub post_batch_nanos: u64,
    /// Time of waiting for writes.
    pub write_completion_wait_nanos: u64,
    /// Completion pumps that died.
    pub cq_errors: u64,
    /// Failures that nobody waited for.
    pub unobserved_completion_failures: u64,
    /// Writes that were posted again.
    pub unknown_peer_retries: u64,
    /// Deliveries that gave up.
    pub unknown_peer_declines: u64,
    /// Buffers that outlived their write.
    pub write_sources_orphaned: u64,
    /// Of those, the ones that are still held.
    pub write_sources_held: u64,
    /// The rails.
    pub rails: Vec<RailSample>,
}

/// How many records were dropped, for each reason.
pub open spec fn eviction_readings(evictions: Seq<(String, u64)>) -> Seq<Reported> {
    evictions.map_values(
        |e: (String, u64)|
            told_of(EFA_CLIENT_EVICTIONS_TOTAL, seq![e.0@], Amount::Count(e.1)),
    )
}

/// How many records were dropped, for each reason.
fn evicted(evictions: &[(String, u64)]) -> (r: Vec<Reading>)
    ensures
        reported(r@) == eviction_readings(evictions@),
{
    let mut list: Vec<Reading> = Vec::new();
    assert(reported(list@) =~= eviction_readings(evictions@.take(0)));
    for i in 0..evictions.len()
        invariant
            reported(list@) == eviction_readings(evictions@.take(i as int)),
    {
        let e = &evictions[i];
        let ghost before = reported(list@);
        list.push(reading_of(EFA_CLIENT_EVICTIONS_TOTAL, e.0.as_str(), Amount::Count(e.1)));
        let ghost next = told_of(EFA_CLIENT_EVICTIONS_TOTAL, seq![e.0@], Amount::Count(e.1));
        assert(reported(list@) =~= before.push(next));
        assert(eviction_readings(evictions@.take(i + 1)) =~= before.push(next));
    }
    assert(evictions@.take(evictions@.len() as int) =~= evictions@);
    list
}

/// No record was dropped for any of the reasons.
pub open spec fn nothing_evicted(reasons: Seq<String>) -> Seq<Reported> {
    reasons.map_values(
        |reason: String| told_of(EFA_CLIENT_EVICTIONS_TOTAL, seq![reason@], Amount::Count(0)),
    )
}

/// The readings at the start: each reason is told before a record is dropped for it.
pub fn evictions_at_first(reasons: &[String]) -> (r: Vec<Reading>)
    ensures
        reported(r@) == nothing_evicted(reasons@),
{
    let mut list: Vec<Reading> = Vec::new();
    assert(reported(list@) =~= nothing_evicted(reasons@.take(0)));
    for i in 0..reasons.len()
        invariant
            reported(list@) == nothing_evicted(reasons@.take(i as int)),
    {
        let ghost before = reported(list@);
        list.push(reading_of(EFA_CLIENT_EVICTIONS_TOTAL, reasons[i].as_str(), Amount::Count(0)));
        let ghost next = told_of(
            EFA_CLIENT_EVICTIONS_TOTAL,
            seq![reasons[i as int]@],
            Amount::Count(0),
        );
        assert(reported(list@) =~= before.push(next));
        assert(nothing_evicted(reasons@.take(i + 1)) =~= before.push(next));
    }
    assert(reasons@.take(reasons@.len() as int) =~= reasons@);
    list
}

/// What the plane says of its clients.
pub open spec fn client_edge_readings(s: RdmaSample) -> Seq<Reported> {
    seq![
        told(EFA_CLIENT_AH_ENTRIES, Amount::Count(s.client_ah_entries)),
        told(EFA_CLIENT_READY_ENTRIES, Amount::Count(s.client_ready_entries)),
        told(EFA_ANNOUNCED_ENTRIES, Amount::Count(s.announced_entries)),
    ] + eviction_readings(s.evictions@)
}

/// Each number that the plane tells of its clients goes to the series of its own name, and each
/// reason's drops to the one for that reason.
pub proof fn the_client_edge_is_told_field_by_field(s: RdmaSample, i: int)
    ensures
        sets(client_edge_readings(s), EFA_CLIENT_AH_ENTRIES@, Amount::Count(s.client_ah_entries)),
        sets(
            client_edge_readings(s),
            EFA_CLIENT_READY_ENTRIES@,
            Amount::Count(s.client_ready_entries),
        ),
        sets(client_edge_readings(s), EFA_ANNOUNCED_ENTRIES@, Amount::Count(s.announced_entries)),
        0 <= i < s.evictions@.len() ==> sets_for(
            client_edge_readings(s),
            EFA_CLIENT_EVICTIONS_TOTAL@,
            seq![s.evictions@[i].0@],
            Amount::Count(s.evictions@[i].1),
        ),
        client_edge_readings(s).len() == 3 + s.evictions@.len(),
{
    let list = client_edge_readings(s);
    assert(list[0].name == EFA_CLIENT_AH_ENTRIES@);
    assert(list[1].name == EFA_CLIENT_READY_ENTRIES@);
    assert(list[2].name == EFA_ANNOUNCED_ENTRIES@);
    if 0 <= i < s.evictions@.len() {
        assert(list[3 + i] == eviction_readings(s.evictions@)[i]);
        assert(list[3 + i].name == EFA_CLIENT_EVICTIONS_TOTAL@);
    }
}

/// At the start each reason is told once, with nothing dropped for it.
pub proof fn each_reason_starts_at_nothing(reasons: Seq<String>, i: int)
    requires
        0 <= i < reasons.len(),
    ensures
        nothing_evicted(reasons).len() == reasons.len(),
        nothing_evicted(reasons)[i].name == EFA_CLIENT_EVICTIONS_TOTAL@,
        nothing_evicted(reasons)[i].labels == seq![reasons[i]@],
        nothing_evicted(reasons)[i].amount == Amount::Count(0),
{
}

/// What the plane says of its clients.
pub fn refresh_client_edge(s: &RdmaSample) -> (r: Vec<Reading>)
    ensures
        reported(r@) == client_edge_readings(*s),
{
    let list = vec![
        reading(EFA_CLIENT_AH_ENTRIES, Amount::Count(s.client_ah_entries)),
        reading(EFA_CLIENT_READY_ENTRIES, Amount::Count(s.client_ready_entries)),
        reading(EFA_ANNOUNCED_ENTRIES, Amount::Count(s.announced_entries)),
    ];
    assert(reported(list@) =~= seq![
        told(EFA_CLIENT_AH_ENTRIES, Amount::Count(s.client_ah_entries)),
        told(EFA_CLIENT_READY_ENTRIES, Amount::Count(s.client_ready_entries)),
        told(EFA_ANNOUNCED_ENTRIES, Amount::Count(s.announced_entries)),
    ]);
    joined(list, evicted(s.evictions.as_slice()))
}

/// What the plane says of itself as a whole.
pub open spec fn plane_readings(s: RdmaSample) -> Seq<Reported> {
    seq![
        told(RDMA_HOLDER_COPY_SECONDS_TOTAL, Amount::Nanos(s.holder_copy_nanos)),
        told(RDMA_REQUESTER_COPY_SECONDS_TOTAL, Amount::Nanos(s.requester_copy_nanos)),
        told(RDMA_REQUESTER_SLOTS_IN_USE, Amount::Count(s.requester_slots_in_use)),
        told(RDMA_RAILS, Amount::Count(s.rail_count)),
        told(RDMA_POST_BATCH_SECONDS_TOTAL, Amount::Nanos(s.post_batch_nanos)),
        told(RDMA_WRITE_COMPLETION_WAIT_SECONDS_TOTAL, Amount::Nanos(s.write_completion_wait_nanos)),
        told(RDMA_CQ_ERRORS_TOTAL, Amount::Count(s.cq_errors)),
        told(RDMA_UNOBSERVED_COMPLETION_FAILURES_TOTAL, Amount::Count(s.unobserved_completion_failures)),
        told(DELIVERY_UNKNOWN_PEER_RETRIES_TOTAL, Amount::Count(s.unknown_peer_retries)),
        told(DELIVERY_UNKNOWN_PEER_DECLINES_TOTAL, Amount::Count(s.unknown_peer_declines)),
        told(RDMA_WRITE_SOURCES_ORPHANED_TOTAL, Amount::Count(s.write_sources_orphaned)),
        told(RDMA_WRITE_SOURCES_HELD, Amount::Count(s.write_sources_held)),
    ]
}

/// Each number that the plane tells of itself as a whole goes to the series of its own name, times
/// as times and counts as counts.
pub proof fn the_plane_is_told_field_by_field(s: RdmaSample)
    ensures
        sets(plane_readings(s), RDMA_HOLDER_COPY_SECONDS_TOTAL@, Amount::Nanos(s.holder_copy_nanos)),
        sets(plane_readings(s), RDMA_REQUESTER_COPY_SECONDS_TOTAL@, Amount::Nanos(s.requester_copy_nanos)),
        sets(plane_readings(s), RDMA_REQUESTER_SLOTS_IN_USE@, Amount::Count(s.requester_slots_in_use)),
        sets(plane_readings(s), RDMA_RAILS@, Amount::Count(s.rail_count)),
        sets(plane_readings(s), RDMA_POST_BATCH_SECONDS_TOTAL@, Amount::Nanos(s.post_batch_nanos)),
        sets(plane_readings(s), RDMA_WRITE_COMPLETION_WAIT_SECONDS_TOTAL@, Amount::Nanos(s.write_completion_wait_nanos)),
        sets(plane_readings(s), RDMA_CQ_ERRORS_TOTAL@, Amount::Count(s.cq_errors)),
        sets(plane_readings(s), RDMA_UNOBSERVED_COMPLETION_FAILURES_TOTAL@, Amount::Count(s.unobserved_completion_failures)),
        sets(plane_readings(s), DELIVERY_UNKNOWN_PEER_RETRIES_TOTAL@, Amount::Count(s.unknown_peer_retries)),
        sets(plane_readings(s), DELIVERY_UNKNOWN_PEER_DECLINES_TOTAL@, Amount::Count(s.unknown_peer_declines)),
        sets(plane_readings(s), RDMA_WRITE_SOURCES_ORPHANED_TOTAL@, Amount::Count(s.write_sources_orphaned)),
        sets(plane_readings(s), RDMA_WRITE_SOURCES_HELD@, Amount::Count(s.write_sources_held)),
        plane_readings(s).len() == 12,
{
    let list = plane_readings(s);
    assert(list[0].name == RDMA_HOLDER_COPY_SECONDS_TOTAL@);
    assert(list[1].name == RDMA_REQUESTER_COPY_SECONDS_TOTAL@);
    assert(list[2].name == RDMA_REQUESTER_SLOTS_IN_USE@);
    assert(list[3].name == RDMA_RAILS@);
    assert(list[4].name == RDMA_POST_BATCH_SECONDS_TOTAL@);
    assert(list[5].name == RDMA_WRITE_COMPLETION_WAIT_SECONDS_TOTAL@);
    assert(list[6].name == RDMA_CQ_ERRORS_TOTAL@);
    assert(list[7].name == RDMA_UNOBSERVED_COMPLETION_FAILURES_TOTAL@);
    assert(list[8].name == DELIVERY_UNKNOWN_PEER_RETRIES_TOTAL@);
    assert(list[9].name == DELIVERY_UNKNOWN_PEER_DECLINES_TOTAL@);
    assert(list[10].name == RDMA_WRITE_SOURCES_ORPHANED_TOTAL@);
    assert(list[11].name == RDMA_WRITE_SOURCES_HELD@);
}

/// The memory node of a rail, or that it is not known.
pub open spec fn numa_text(numa_node: Option<u64>) -> Seq<char> {
    match numa_node {
        Some(n) => decimal(n as nat),
        None => UNKNOWN_NUMA@,
    }
}

/// One number of a rail.
pub open spec fn of_rail(s: RailSample, metric: &str, value: u64) -> Reported {
    told_of(
        RDMA_RAIL,
        seq![decimal(s.rail as nat), numa_text(s.numa_node), metric@],
        Amount::Count(value),
    )
}

/// The numbers of a rail.
pub open spec fn rail_readings(s: RailSample) -> Seq<Reported> {
    seq![
        of_rail(s, RAIL_WRITES_IN_FLIGHT, s.writes_in_flight),
        of_rail(s, RAIL_WRITES_TOTAL, s.writes_total),
        of_rail(s, RAIL_WRITE_BYTES_TOTAL, s.write_bytes_total),
        of_rail(s, RAIL_RANGES_IN_USE, s.ranges_in_use),
        of_rail(s, RAIL_STAGING_IN_USE, s.staging_in_use),
        of_rail(s, RAIL_STAGING_RANGES, s.staging_ranges),
        of_rail(s, RAIL_AH_EVICTIONS, s.ah_evictions),
    ]
}

/// The numbers of each rail.
pub open spec fn rails_readings(rails: Seq<RailSample>) -> Seq<Reported>
    decreases rails.len(),
{
    if rails.len() == 0 {
        Seq::empty()
    } else {
        rails_readings(rails.drop_last()) + rail_readings(rails.last())
    }
}

/// Each number of a rail is told under the rail's number, the memory node that it is near, where
/// that is known, and its own name.
pub proof fn a_rail_is_told_field_by_field(s: RailSample, near: Seq<char>)
    requires
        s.numa_node matches Some(n) ==> near == decimal(n as nat),
        s.numa_node is None ==> near == "unknown"@,
    ensures
        sets_for(
            rail_readings(s),
            RDMA_RAIL@,
            seq![decimal(s.rail as nat), near, "writes_in_flight"@],
            Amount::Count(s.writes_in_flight),
        ),
        sets_for(
            rail_readings(s),
            RDMA_RAIL@,
            seq![decimal(s.rail as nat), near, "writes_total"@],
            Amount::Count(s.writes_total),
        ),
        sets_for(
            rail_readings(s),
            RDMA_RAIL@,
            seq![decimal(s.rail as nat), near, "write_bytes_total"@],
            Amount::Count(s.write_bytes_total),
        ),
        sets_for(
            rail_readings(s),
            RDMA_RAIL@,
            seq![decimal(s.rail as nat), near, "ranges_in_use"@],
            Amount::Count(s.ranges_in_use),
        ),
        sets_for(
            rail_readings(s),
            RDMA_RAIL@,
            seq![decimal(s.rail as nat), near, "staging_in_use"@],
            Amount::Count(s.staging_in_use),
        ),
        sets_for(
            rail_readings(s),
            RDMA_RAIL@,
            seq![decimal(s.rail as nat), near, "staging_ranges"@],
            Amount::Count(s.staging_ranges),
        ),
        sets_for(
            rail_readings(s),
            RDMA_RAIL@,
            seq![decimal(s.rail as nat), near, "ah_evictions"@],
            Amount::Count(s.ah_evictions),
        ),
        rail_readings(s).len() == 7,
{
    let list = rail_readings(s);
    assert(list[0].name == RDMA_RAIL@);
    assert(list[1].name == RDMA_RAIL@);
    assert(list[2].name == RDMA_RAIL@);
    assert(list[3].name == RDMA_RAIL@);
    assert(list[4].name == RDMA_RAIL@);
    assert(list[5].name == RDMA_RAIL@);
    assert(list[6].name == RDMA_RAIL@);
}

/// Each rail is told by itself, those of the first rail first.
pub proof fn rails_are_told_one_by_one(front: Seq<RailSample>, one: RailSample, back: Seq<RailSample>)
    ensures
        rails_readings(front + back) == rails_readings(front) + rails_readings(back),
        rails_readings(seq![one]) == rail_readings(one),
    decreases back.len(),
{
    reveal_with_fuel(rails_readings, 2);
    assert(seq![one].drop_last() =~= Seq::<RailSample>::empty());
    assert(rails_readings(seq![one]) =~= rail_readings(one));
    if back.len() == 0 {
        assert(front + back =~= front);
        assert(rails_readings(front) + rails_readings(back) =~= rails_readings(front));
    } else {
        rails_are_told_one_by_one(front, one, back.drop_last());
        assert((front + back).drop_last() =~= front + back.drop_last());
        assert(rails_readings(front + back) =~= rails_readings(front) + rails_readings(back));
    }
}

/// One number of a rail.
fn rail_number(s: &RailSample, metric: &'static str, value: u64) -> (r: Reading)
    ensures
        r@ == of_rail(*s, metric, value),
{
    let mut rail = String::new();
    push_decimal(&mut rail, s.rail);
    let numa = match s.numa_node {
        Some(n) => {
            let mut text = String::new();
            push_decimal(&mut text, n);
            assert(text@ =~= decimal(n as nat));
            text
        },
        None => UNKNOWN_NUMA.to_owned(),
    };
    let r = Reading {
        name: RDMA_RAIL,
        labels: vec![rail, numa, metric.to_owned()],
        amount: Amount::Count(value),
    };
    assert(rail@ =~= decimal(s.rail as nat));
    assert(r@.labels =~= seq![decimal(s.rail as nat), numa_text(s.numa_node), metric@]);
    r
}

/// The numbers of each rail.
fn rails_told(rails: &[RailSample]) -> (r: Vec<Reading>)
    ensures
        reported(r@) == rails_readings(rails@),
{
    let mut list: Vec<Reading> = Vec::new();
    assert(reported(list@) =~= rails_readings(rails@.take(0)));
    for i in 0..rails.len()
        invariant
            reported(list@) == rails_readings(rails@.take(i as int)),
    {
        let s = &rails[i];
        let one = vec![
            rail_number(s, RAIL_WRITES_IN_FLIGHT, s.writes_in_flight),
            rail_number(s, RAIL_WRITES_TOTAL, s.writes_total),
            rail_number(s, RAIL_WRITE_BYTES_TOTAL, s.write_bytes_total),
            rail_number(s, RAIL_RANGES_IN_USE, s.ranges_in_use),
            rail_number(s, RAIL_STAGING_IN_USE, s.staging_in_use),
            rail_number(s, RAIL_STAGING_RANGES, s.staging_ranges),
            rail_number(s, RAIL_AH_EVICTIONS, s.ah_evictions),
        ];
        assert(reported(one@) =~= rail_readings(*s));
        list = joined(list, one);
        assert(rails@.take(i + 1).drop_last() =~= rails@.take(i as int));
    }
    assert(rails@.take(rails@.len() as int) =~= rails@);
    list
}

/// What the plane says, where there is one.
pub open spec fn rdma_readings(sample: Option<&RdmaSample>) -> Seq<Reported> {
    match sample {
        Some(s) => client_edge_readings(*s) + plane_readings(*s) + rails_readings(s.rails@),
        None => Seq::empty(),
    }
}

/// What the plane says, where there is one.
pub fn refresh_rdma_copy(sample: Option<&RdmaSample>) -> (r: Vec<Reading>)
    ensures
        reported(r@) == rdma_readings(sample),
{
    match sample {
        Some(s) => {
            let plane = vec![
                reading(RDMA_HOLDER_COPY_SECONDS_TOTAL, Amount::Nanos(s.holder_copy_nanos)),
                reading(RDMA_REQUESTER_COPY_SECONDS_TOTAL, Amount::Nanos(s.requester_copy_nanos)),
                reading(RDMA_REQUESTER_SLOTS_IN_USE, Amount::Count(s.requester_slots_in_use)),
                reading(RDMA_RAILS, Amount::Count(s.rail_count)),
                reading(RDMA_POST_BATCH_SECONDS_TOTAL, Amount::Nanos(s.post_batch_nanos)),
                reading(RDMA_WRITE_COMPLETION_WAIT_SECONDS_TOTAL, Amount::Nanos(s.write_completion_wait_nanos)),
                reading(RDMA_CQ_ERRORS_TOTAL, Amount::Count(s.cq_errors)),
                reading(RDMA_UNOBSERVED_COMPLETION_FAILURES_TOTAL, Amount::Count(s.unobserved_completion_failures)),
                reading(DELIVERY_UNKNOWN_PEER_RETRIES_TOTAL, Amount::Count(s.unknown_peer_retries)),
                reading(DELIVERY_UNKNOWN_PEER_DECLINES_TOTAL, Amount::Count(s.unknown_peer_declines)),
                reading(RDMA_WRITE_SOURCES_ORPHANED_TOTAL, Amount::Count(s.write_sources_orphaned)),
                reading(RDMA_WRITE_SOURCES_HELD, Amount::Count(s.write_sources_held)),
            ];
            assert(reported(plane@) =~= plane_readings(*s));
            joined(joined(refresh_client_edge(s), plane), rails_told(s.rails.as_slice()))
        },
        None => {
            let list: Vec<Reading> = Vec::new();
            assert(reported(list@) =~= Seq::<Reported>::empty());
            list
        },
    }
}

// ---- the whole scrape ----

/// What a scrape finds.
#[derive(Debug)]
pub struct Samples<'a> {
    /// The kernel's table of connections of the older address family.
    pub tcp: &'a str,
    /// That of the newer one.
    pub tcp6: &'a str,
    /// The control group.
    pub cgroup: Option<CgroupSample>,
    /// The allocator.
    pub malloc: Option<MallocSample>,
    /// How many client bytes are pinned.
    pub pinned_bytes: Option<u64>,
    /// What is staged for scattered writes.
    pub staging: Option<&'a StagingArea>,
    /// The slots of scattered writes.
    pub windows: Option<WindowSlots>,
    /// The chunk store.
    pub store: Option<StoreSample>,
    /// The block devices under the cache, none where they are not known.
    pub devices: &'a [DeviceCounters],
    /// The RDMA plane.
    pub rdma: Option<&'a RdmaSample>,
}

/// What a scrape sets the gauges to.
pub open spec fn scrape_readings(s: Samples<'_>) -> Seq<Reported> {
    socket_readings(s.tcp, s.tcp6) + cgroup_readings(s.cgroup) + malloc_readings(s.malloc)
        + delivery_readings(s.pinned_bytes) + (staging_readings(s.staging) + slot_readings(
        s.windows,
    )) + store_readings(s.store) + device_readings(s.devices@) + rdma_readings(s.rdma)
}

/// A scrape tells all that its samples tell: each reading of the sockets, the control group, the
/// allocator, the pinned bytes, the bounds of scattered writes, the chunk store, the devices and
/// the plane, and not one more.
pub proof fn a_scrape_tells_every_sample(s: Samples<'_>, r: Reported)
    ensures
        socket_readings(s.tcp, s.tcp6).contains(r) || cgroup_readings(s.cgroup).contains(r)
            || malloc_readings(s.malloc).contains(r) || delivery_readings(s.pinned_bytes).contains(
            r,
        ) || staging_readings(s.staging).contains(r) || slot_readings(s.windows).contains(r)
            || store_readings(s.store).contains(r) || device_readings(s.devices@).contains(r) || (
        s.rdma matches Some(p) && (client_edge_readings(*p).contains(r) || plane_readings(
            *p,
        ).contains(r) || rails_readings(p.rails@).contains(r))) ==> scrape_readings(s).contains(r),
        scrape_readings(s).len() == socket_readings(s.tcp, s.tcp6).len() + cgroup_readings(
            s.cgroup,
        ).len() + malloc_readings(s.malloc).len() + delivery_readings(s.pinned_bytes).len()
            + staging_readings(s.staging).len() + slot_readings(s.windows).len() + store_readings(
            s.store,
        ).len() + device_readings(s.devices@).len() + if s.rdma is Some {
            client_edge_readings(*s.rdma->Some_0).len() + plane_readings(*s.rdma->Some_0).len()
                + rails_readings(s.rdma->Some_0.rails@).len()
        } else {
            0
        },
{
    let a = socket_readings(s.tcp, s.tcp6);
    let b = a + cgroup_readings(s.cgroup);
    let c = b + malloc_readings(s.malloc);
    let d = c + delivery_readings(s.pinned_bytes);
    let bounds = staging_readings(s.staging) + slot_readings(s.windows);
    let e = d + bounds;
    let f = e + store_readings(s.store);
    let g = f + device_readings(s.devices@);
    if a.contains(r) || cgroup_readings(s.cgroup).contains(r) {
        lemma_joined_sets(a, cgroup_readings(s.cgroup), r);
    }
    if b.contains(r) || malloc_readings(s.malloc).contains(r) {
        lemma_joined_sets(b, malloc_readings(s.malloc), r);
    }
    if c.contains(r) || delivery_readings(s.pinned_bytes).contains(r) {
        lemma_joined_sets(c, delivery_readings(s.pinned_bytes), r);
    }
    if staging_readings(s.staging).contains(r) || slot_readings(s.windows).contains(r) {
        lemma_joined_sets(staging_readings(s.staging), slot_readings(s.windows), r);
    }
    if d.contains(r) || bounds.contains(r) {
        lemma_joined_sets(d, bounds, r);
    }
    if e.contains(r) || store_readings(s.store).contains(r) {
        lemma_joined_sets(e, store_readings(s.store), r);
    }
    if f.contains(r) || device_readings(s.devices@).contains(r) {
        lemma_joined_sets(f, device_readings(s.devices@), r);
    }
    if let Some(p) = s.rdma {
        let x = client_edge_readings(*p);
        let y = x + plane_readings(*p);
        if x.contains(r) || plane_readings(*p).contains(r) {
            lemma_joined_sets(x, plane_readings(*p), r);
        }
        if y.contains(r) || rails_readings(p.rails@).contains(r) {
            lemma_joined_sets(y, rails_readings(p.rails@), r);
        }
    }
    if g.contains(r) || rdma_readings(s.rdma).contains(r) {
        lemma_joined_sets(g, rdma_readings(s.rdma), r);
    }
}

/// What a scrape sets the gauges to, in this order.
pub fn refresh(s: &Samples<'_>) -> (r: Vec<Reading>)
    requires
        s.staging matches Some(area) ==> area.wf(),
    ensures
        reported(r@) == scrape_readings(*s),
{
    let list = joined(refresh_backend_sockets(s.tcp, s.tcp6), refresh_cgroup(s.cgroup));
    let list = joined(list, refresh_malloc(s.malloc));
    let list = joined(list, refresh_delivery(s.pinned_bytes));
    let list = joined(list, refresh_scatter(s.staging, s.windows));
    let list = joined(list, refresh_chunk_store(s.store));
    let list = joined(list, publish_device_counters(s.devices));
    joined(list, refresh_rdma_copy(s.rdma))
}

} // verus!
