//! Cutting a PUT body onto the chunk grid, and deciding where each window goes.

use std::collections::VecDeque;
use std::ops::Range;

use bytes::{Bytes, BytesMut};
use vstd::prelude::*;

use crate::blob::{append, buffered, bytes_of, joined, lemma_joined_push};
use crate::chunk::{chunk_span, chunks_in, index_below_count, key_of_chunk, ChunkConfig};
use crate::clock::{Moment, Span};
use crate::cluster::NodeId;
use crate::table::Table;

verus! {

/// Node-wide ceiling on staged bytes, where nobody sets one.
pub const DEFAULT_STAGING_BYTES: u64 = 2_147_483_648;

/// How long a staged chunk may sit, in seconds, where nobody says.
pub const DEFAULT_STAGING_TTL_SECS: u64 = 900;

/// Windows that a coordinator keeps in flight, where nobody says.
pub const DEFAULT_WINDOWS_IN_FLIGHT: usize = 16;

/// The smallest object worth scattering, where nobody says.
pub const DEFAULT_MIN_SCATTER_BYTES: u64 = 134_217_728;

/// How long an owner that refused for load is left alone, in seconds, where nobody says.
pub const DEFAULT_SATURATED_COOLDOWN_SECS: u64 = 5;

/// The most parts a multipart upload may have. One window is one part.
pub const MAX_S3_PARTS: u64 = 10_000;

/// The smallest size of every part but the last.
pub const MIN_S3_PART_SIZE: u64 = 5_242_880;

// ---- the plan ----

/// One window's destination: which chunk it is, which part carries it, and which nodes
/// may hold it.
#[derive(Debug)]
pub struct PlannedWindow {
    /// Index of the chunk within the object, from zero.
    pub index: u64,
    /// Part number of the window, one more than its index.
    pub part_number: i32,
    /// Key under which the window is cached.
    pub chunk_key: String,
    /// The chunk's homes, best first. The first is offered the upload.
    pub homes: Vec<NodeId>,
}

impl PlannedWindow {
    /// The object's bytes that this window covers, or `None` where its index lies past
    /// the end of an object that long.
    pub fn bounds(&self, chunk: &ChunkConfig, object_len: u64) -> (r: Option<Range<u64>>)
        ensures
            match chunk_span(chunk.size(), self.index as nat, object_len as nat) {
                Some((a, b)) => r == Some(Range { start: a as u64, end: b as u64 }) && a < b
                    <= object_len,
                None => r is None,
            },
    {
        chunk.chunk_bounds(self.index, object_len)
    }
}

/// The windows that a PUT decomposes into, in body order.
#[derive(Debug)]
pub struct ScatterPlan {
    /// Windows in ascending order, covering the object exactly.
    pub windows: Vec<PlannedWindow>,
    /// The length of the object that the plan is for.
    pub object_len: u64,
}

/// What window `index` of a plan is, up to its homes.
pub open spec fn planned(w: PlannedWindow, size: nat, object_key: Seq<char>, index: nat) -> bool {
    &&& w.index == index
    &&& w.part_number == ((index + 1) as u64) as i32
    &&& w.chunk_key@ == key_of_chunk(object_key, size, index)
}

/// The keys of an object's windows, in order: what to ask the ring for the homes of.
pub fn window_keys(chunk: &ChunkConfig, object_key: &str, object_len: u64) -> (r: Vec<String>)
    ensures
        r@.len() == chunks_in(chunk.size(), object_len as nat),
        forall|i: int|
            0 <= i < r@.len() ==> (#[trigger] r@[i])@ == key_of_chunk(
                object_key@,
                chunk.size(),
                i as nat,
            ),
{
    let count: u64 = chunk.chunk_count(object_len);
    let mut out: Vec<String> = Vec::new();
    let mut index: u64 = 0;
    while index < count
        invariant
            index <= count,
            out@.len() == index,
            forall|i: int|
                0 <= i < out@.len() ==> (#[trigger] out@[i])@ == key_of_chunk(
                    object_key@,
                    chunk.size(),
                    i as nat,
                ),
        decreases count - index,
    {
        out.push(chunk.chunk_key(object_key, index));
        index += 1;
    }
    out
}

impl ScatterPlan {
    /// Plan the scatter of an object's bytes. `homes` are the homes of the windows'
    /// keys ([`window_keys`]), in order.
    pub fn build(
        chunk: &ChunkConfig,
        object_key: &str,
        object_len: u64,
        homes: Vec<Vec<NodeId>>,
    ) -> (plan: Self)
        requires
            homes@.len() == chunks_in(chunk.size(), object_len as nat),
        ensures
            plan.object_len == object_len,
            plan.windows@.len() == chunks_in(chunk.size(), object_len as nat),
            forall|i: int|
                0 <= i < plan.windows@.len() ==> {
                    &&& planned(#[trigger] plan.windows@[i], chunk.size(), object_key@, i as nat)
                    &&& plan.windows@[i].homes == homes@[i]
                },
    {
        let count: u64 = chunk.chunk_count(object_len);
        let mut windows: Vec<PlannedWindow> = Vec::new();
        let mut index: u64 = 0;
        let ghost all = homes@;
        for h in it: homes
            invariant
                it.seq() == all,
                index == it.index(),
                windows@.len() == index,
                all.len() == count,
                forall|i: int|
                    0 <= i < windows@.len() ==> {
                        &&& planned(#[trigger] windows@[i], chunk.size(), object_key@, i as nat)
                        &&& windows@[i].homes == all[i]
                    },
        {
            windows.push(
                PlannedWindow {
                    index,
                    part_number: #[verifier::truncate] ((index + 1) as i32),
                    chunk_key: chunk.chunk_key(object_key, index),
                    homes: h,
                },
            );
            index += 1;
        }
        ScatterPlan { windows, object_len }
    }

    /// How many distinct nodes are the first choice of some window.
    pub fn distinct_homes(&self) -> (n: usize)
        ensures
            n == first_homes(self.windows@).len(),
    {
        let mut seen: Vec<&str> = Vec::new();
        let mut i: usize = 0;
        let ghost mut found: Set<Seq<char>> = Set::empty();
        assert(self.windows@.take(0) =~= Seq::empty());
        assert(first_homes(self.windows@.take(0)) =~= Set::empty());
        while i < self.windows.len()
            invariant
                i <= self.windows@.len(),
                found == first_homes(self.windows@.take(i as int)),
                found.finite(),
                found.len() == seen@.len(),
                forall|k: int| 0 <= k < seen@.len() ==> found.contains((#[trigger] seen@[k])@),
                forall|name: Seq<char>| #[trigger]
                    found.contains(name) ==> exists|k: int|
                        0 <= k < seen@.len() && (#[trigger] seen@[k])@ == name,
            decreases self.windows@.len() - i,
        {
            let w = &self.windows[i];
            proof {
                assert(self.windows@.take(i + 1).drop_last() =~= self.windows@.take(i as int));
                assert(self.windows@.take(i + 1).last() == *w);
            }
            if w.homes.len() > 0 {
                let name = w.homes[0].name();
                let mut known = false;
                let mut k: usize = 0;
                while k < seen.len() && !known
                    invariant
                        k <= seen@.len(),
                        known ==> exists|j: int| 0 <= j < seen@.len() && (#[trigger] seen@[j])@ == name@,
                        !known ==> forall|j: int| 0 <= j < k ==> (#[trigger] seen@[j])@ != name@,
                    decreases seen@.len() - k + if known { 0int } else { 1 },
                {
                    if seen[k].eq(name) {
                        known = true;
                    } else {
                        k += 1;
                    }
                }
                let ghost before = seen@;
                if !known {
                    seen.push(name);
                }
                proof {
                    let now = found.insert(name@);
                    assert(now =~= first_homes(self.windows@.take(i + 1)));
                    if known {
                        assert(found.contains(name@));
                        assert(now =~= found);
                    } else {
                        assert(!found.contains(name@));
                    }
                    assert forall|k: int| 0 <= k < seen@.len() implies now.contains(
                        (#[trigger] seen@[k])@,
                    ) by {
                        if k < before.len() {
                            assert(seen@[k] == before[k]);
                        }
                    }
                    assert forall|n: Seq<char>| #[trigger] now.contains(n) implies exists|k: int|
                        0 <= k < seen@.len() && (#[trigger] seen@[k])@ == n by {
                        if found.contains(n) {
                            let k = choose|k: int| 0 <= k < before.len() && (#[trigger] before[k])@ == n;
                            assert(seen@[k] == before[k]);
                        } else {
                            assert(seen@[seen@.len() - 1]@ == n);
                        }
                    }
                    found = now;
                }
            } else {
                proof {
                    assert(found =~= first_homes(self.windows@.take(i + 1)));
                }
            }
            i += 1;
        }
        assert(self.windows@.take(i as int) =~= self.windows@);
        seen.len()
    }
}

/// The names of the windows' first choices.
pub open spec fn first_homes(windows: Seq<PlannedWindow>) -> Set<Seq<char>>
    decreases windows.len(),
{
    if windows.len() == 0 {
        Set::empty()
    } else {
        let before = first_homes(windows.drop_last());
        if windows.last().homes@.len() > 0 {
            before.insert(windows.last().homes@[0]@)
        } else {
            before
        }
    }
}

/// The first choices are those of the windows, and no other: a node is among them exactly where
/// some window has it as its first home.
pub proof fn first_choices_are_first_homes(windows: Seq<PlannedWindow>, name: Seq<char>)
    ensures
        first_homes(windows).contains(name) <==> exists|i: int|
            0 <= i < windows.len() && (#[trigger] windows[i]).homes@.len() > 0
                && windows[i].homes@[0]@ == name,
    decreases windows.len(),
{
    if windows.len() > 0 {
        let front = windows.drop_last();
        let last = windows.last();
        first_choices_are_first_homes(front, name);
        if first_homes(front).contains(name) {
            let i = choose|i: int|
                0 <= i < front.len() && (#[trigger] front[i]).homes@.len() > 0
                    && front[i].homes@[0]@ == name;
            assert(windows[i] == front[i]);
        }
        if exists|i: int|
            0 <= i < windows.len() && (#[trigger] windows[i]).homes@.len() > 0
                && windows[i].homes@[0]@ == name {
            let i = choose|i: int|
                0 <= i < windows.len() && (#[trigger] windows[i]).homes@.len() > 0
                    && windows[i].homes@[0]@ == name;
            if i < front.len() {
                assert(front[i] == windows[i]);
            }
        }
        if last.homes@.len() > 0 && last.homes@[0]@ == name {
            assert(windows[windows.len() - 1].homes@[0]@ == name);
        }
    }
}

/// Each window of a plan is cached under the key of its chunk, and goes up as the part that
/// counts one more than its index, as far as part numbers reach.
pub proof fn a_window_is_its_chunk(
    w: PlannedWindow,
    size: nat,
    object_key: Seq<char>,
    index: nat,
)
    requires
        planned(w, size, object_key, index),
        index < i32::MAX,
    ensures
        w.index == index,
        w.part_number == index + 1,
        w.chunk_key@ == key_of_chunk(object_key, size, index),
{
    let n: u64 = (index + 1) as u64;
    assert(n as i32 == n) by (bit_vector)
        requires
            n <= 0x7fff_ffffu64,
    ;
}

// ---- whether to scatter ----

/// How this node takes part in scattered writes.
#[derive(Clone, Copy, Debug, PartialEq, Eq, Structural)]
pub struct ScatterConfig {
    /// Whether a PUT is scattered at all.
    pub enabled: bool,
    /// Node-wide ceiling on staged bytes.
    pub staging_bytes: u64,
    /// How long a staged chunk may sit.
    pub staging_ttl: Span,
    /// Windows that a coordinator keeps in flight.
    pub windows_in_flight: usize,
    /// The smallest object to scatter.
    pub min_object_bytes: u64,
    /// How long an owner that refused for load is left alone.
    pub saturated_cooldown: Span,
}

impl Default for ScatterConfig {
    fn default() -> (c: Self)
        ensures
            !c.enabled,
            c.staging_bytes == DEFAULT_STAGING_BYTES,
            c.staging_ttl.nanos == DEFAULT_STAGING_TTL_SECS * crate::clock::NANOS_PER_SEC,
            c.windows_in_flight == DEFAULT_WINDOWS_IN_FLIGHT,
            c.min_object_bytes == DEFAULT_MIN_SCATTER_BYTES,
            c.saturated_cooldown.nanos == DEFAULT_SATURATED_COOLDOWN_SECS
                * crate::clock::NANOS_PER_SEC,
    {
        ScatterConfig {
            enabled: false,
            staging_bytes: DEFAULT_STAGING_BYTES,
            staging_ttl: Span::from_secs(DEFAULT_STAGING_TTL_SECS),
            windows_in_flight: DEFAULT_WINDOWS_IN_FLIGHT,
            min_object_bytes: DEFAULT_MIN_SCATTER_BYTES,
            saturated_cooldown: Span::from_secs(DEFAULT_SATURATED_COOLDOWN_SECS),
        }
    }
}

/// Why a PUT is or is not scattered.
#[derive(Clone, Copy, Debug, PartialEq, Eq, Structural)]
pub enum ScatterVerdict {
    /// Scatter it.
    Scatter,
    /// The object is below the smallest size to scatter.
    TooSmall,
    /// The object needs more windows than an upload may have parts.
    TooManyParts {
        /// Windows that the object would need.
        needed: u64,
        /// The largest object that this chunk size can scatter, in bytes.
        ceiling: u64,
    },
    /// The chunk size is below the part minimum: no object can ever scatter.
    ChunkBelowPartMinimum,
    /// The chunk size exceeds a peer message: no window could be offered to its home.
    ChunkAbovePeerMessageLimit,
}

impl ScatterVerdict {
    /// Whether the scatter path runs.
    pub fn is_scatter(&self) -> (r: bool)
        ensures
            r == (*self is Scatter),
    {
        matches!(self, ScatterVerdict::Scatter)
    }

    /// Whether the node is misconfigured, so that no object will ever scatter, rather
    /// than this object being unsuitable.
    pub fn is_misconfiguration(&self) -> (r: bool)
        ensures
            r == (*self is ChunkBelowPartMinimum || *self is ChunkAbovePeerMessageLimit),
    {
        matches!(
            self,
            ScatterVerdict::ChunkBelowPartMinimum | ScatterVerdict::ChunkAbovePeerMessageLimit
        )
    }
}

/// What a node does where it is told nothing else: it stages up to two gibibytes, each chunk for a
/// quarter of an hour, sends sixteen windows at a time, scatters from an eighth of a gibibyte on,
/// and leaves an owner that is full alone for five seconds. A multipart upload has ten thousand
/// parts at most, and no part but the last below five mebibytes.
pub proof fn what_holds_where_nothing_is_set()
    ensures
        DEFAULT_STAGING_BYTES == 2 * 1024 * 1024 * 1024,
        DEFAULT_STAGING_TTL_SECS == 15 * 60,
        DEFAULT_WINDOWS_IN_FLIGHT == 16,
        DEFAULT_MIN_SCATTER_BYTES == 128 * 1024 * 1024,
        DEFAULT_SATURATED_COOLDOWN_SECS == 5,
        MAX_S3_PARTS == 10_000,
        MIN_S3_PART_SIZE == 5 * 1024 * 1024,
{
}

/// Why an object of `object_len` bytes is or is not scattered: the grid is judged
/// first, then the object's size, then its part count.
pub open spec fn verdict(
    size: nat,
    object_len: nat,
    min_object_size: nat,
    peer_message_limit: nat,
) -> ScatterVerdict {
    if size < MIN_S3_PART_SIZE {
        ScatterVerdict::ChunkBelowPartMinimum
    } else if size > peer_message_limit {
        ScatterVerdict::ChunkAbovePeerMessageLimit
    } else if object_len < min_object_size {
        ScatterVerdict::TooSmall
    } else if chunks_in(size, object_len) > MAX_S3_PARTS {
        ScatterVerdict::TooManyParts {
            needed: chunks_in(size, object_len) as u64,
            ceiling: (MAX_S3_PARTS * size) as u64,
        }
    } else {
        ScatterVerdict::Scatter
    }
}

/// Decide whether an object is scattered, and if not, why. `peer_message_limit` is the
/// most bytes that one peer message may carry.
pub fn scatter_verdict(
    chunk: &ChunkConfig,
    object_len: u64,
    min_object_size: u64,
    peer_message_limit: u64,
) -> (v: ScatterVerdict)
    ensures
        v == verdict(
            chunk.size(),
            object_len as nat,
            min_object_size as nat,
            peer_message_limit as nat,
        ),
        v matches ScatterVerdict::TooManyParts { needed, ceiling } ==> needed == chunks_in(
            chunk.size(),
            object_len as nat,
        ) && ceiling == MAX_S3_PARTS * chunk.size() && ceiling < object_len,
{
    let size: u64 = chunk.chunk_size();
    if size < MIN_S3_PART_SIZE {
        return ScatterVerdict::ChunkBelowPartMinimum;
    }
    if size > peer_message_limit {
        return ScatterVerdict::ChunkAbovePeerMessageLimit;
    }
    if object_len < min_object_size {
        return ScatterVerdict::TooSmall;
    }
    let needed: u64 = chunk.chunk_count(object_len);
    if needed > MAX_S3_PARTS {
        proof {
            index_below_count(chunk.size(), MAX_S3_PARTS as nat, object_len as nat);
        }
        return ScatterVerdict::TooManyParts { needed, ceiling: MAX_S3_PARTS * size };
    }
    ScatterVerdict::Scatter
}

/// An object is scattered exactly where a chunk is no smaller than the least part and no larger
/// than a peer message, the object is no smaller than the floor, and no more chunks cover it
/// than an upload may have parts. Otherwise the first of these that fails is what is told.
pub proof fn what_makes_an_object_scatterable(
    size: nat,
    object_len: nat,
    min_object_size: nat,
    peer_message_limit: nat,
)
    requires
        size > 0,
    ensures
        ({
            let v = verdict(size, object_len, min_object_size, peer_message_limit);
            &&& v is Scatter <==> 5 * 1024 * 1024 <= size <= peer_message_limit && min_object_size
                <= object_len <= 10_000 * size
            &&& v is ChunkBelowPartMinimum <==> size < 5 * 1024 * 1024
            &&& v is ChunkAbovePeerMessageLimit <==> size >= 5 * 1024 * 1024 && size
                > peer_message_limit
            &&& v is TooSmall <==> 5 * 1024 * 1024 <= size <= peer_message_limit && object_len
                < min_object_size
            &&& v is TooManyParts <==> 5 * 1024 * 1024 <= size <= peer_message_limit && object_len
                >= min_object_size && object_len > 10_000 * size
        }),
{
    index_below_count(size, 10_000, object_len);
}

/// A plan of an object that is to be scattered has at most the allowed parts, and its
/// part numbers run from one upwards without a gap.
pub proof fn scattered_parts_are_consecutive(
    w: PlannedWindow,
    size: nat,
    object_key: Seq<char>,
    index: nat,
    object_len: nat,
    min_object_size: nat,
    peer_message_limit: nat,
)
    requires
        size > 0,
        verdict(size, object_len, min_object_size, peer_message_limit) is Scatter,
        index < chunks_in(size, object_len),
        planned(w, size, object_key, index),
    ensures
        w.part_number == index + 1,
        1 <= w.part_number <= MAX_S3_PARTS,
{
    let n: u64 = (index + 1) as u64;
    assert(n <= 10_000);
    assert(n as i32 == n) by (bit_vector)
        requires
            n <= 10_000u64,
    ;
}

/// Every window of a scattered object but the last is a full chunk, and so a part of
/// allowed size; the last covers what is left.
pub proof fn interior_windows_are_full(size: nat, index: nat, object_len: nat)
    requires
        size >= MIN_S3_PART_SIZE,
        index < chunks_in(size, object_len),
    ensures
        chunk_span(size, index, object_len) is Some,
        index + 1 < chunks_in(size, object_len) ==> chunk_span(size, index, object_len) == Some(
            (index * size, index * size + size),
        ),
        index + 1 == chunks_in(size, object_len) ==> (chunk_span(
            size,
            index,
            object_len,
        )->0).1 == object_len,
{
    index_below_count(size, index, object_len);
    index_below_count(size, index + 1, object_len);
    assert((index + 1) * size == index * size + size) by (nonlinear_arith);
}

/// The windows of an object lie end to end: each starts where the one before it ends,
/// and the first starts at the front.
pub proof fn windows_lie_end_to_end(size: nat, index: nat, object_len: nat)
    requires
        size > 0,
        index + 1 < chunks_in(size, object_len),
    ensures
        (chunk_span(size, 0, object_len)->0).0 == 0,
        (chunk_span(size, index, object_len)->0).1 == (chunk_span(
            size,
            index + 1,
            object_len,
        )->0).0,
{
    index_below_count(size, 0, object_len);
    index_below_count(size, index, object_len);
    index_below_count(size, index + 1, object_len);
    assert(0 * size == 0) by (nonlinear_arith);
}

// ---- who is worth offering to ----

/// Why an owner refused a window.
#[derive(Clone, Copy, Debug, PartialEq, Eq, Structural)]
pub enum StoreRefusal {
    /// The staging budget is full.
    BudgetExhausted {
        /// Bytes staged at the refusal.
        staged: u64,
        /// The budget.
        budget: u64,
    },
    /// The window alone exceeds the budget.
    OversizedForBudget {
        /// The window's length.
        chunk_len: u64,
        /// The budget.
        budget: u64,
    },
    /// Another upload holds the same key.
    RacingUpload,
    /// The peer takes no scattered writes.
    NotAccepting,
    /// A reason that this build does not know.
    Unknown,
}

impl StoreRefusal {
    /// Whether waiting clears the refusal.
    pub open spec fn transient(self) -> bool {
        self is BudgetExhausted || self is RacingUpload
    }

    /// Whether waiting clears the refusal.
    pub fn is_transient(&self) -> (r: bool)
        ensures
            r == self.transient(),
    {
        matches!(self, StoreRefusal::BudgetExhausted { .. } | StoreRefusal::RacingUpload)
    }
}

/// Remembers which owners have refused, so that a coordinator stops offering to them.
///
/// A refusal for load clears on its own and is remembered up to a deadline; any other
/// refusal is remembered until the peer is forgotten.
#[derive(Debug)]
pub struct SaturationTracker {
    /// By owner, when it may be offered to again, or `None` for never.
    blocked: Table<Option<Moment>>,
}

impl View for SaturationTracker {
    type V = Map<Seq<char>, Option<Moment>>;

    closed spec fn view(&self) -> Map<Seq<char>, Option<Moment>> {
        self.blocked@
    }
}

/// Whether an owner is worth offering to: it never refused, or its deadline has come.
pub open spec fn offerable(
    blocked: Map<Seq<char>, Option<Moment>>,
    owner: Seq<char>,
    now: Moment,
) -> bool {
    blocked.contains_key(owner) ==> (blocked[owner] matches Some(until) && until.nanos
        <= now.nanos)
}

impl SaturationTracker {
    /// Each owner is remembered once.
    pub closed spec fn wf(&self) -> bool {
        self.blocked.wf()
    }

    /// A tracker that remembers nobody.
    pub fn new() -> (t: Self)
        ensures
            t.wf(),
            t@ == Map::<Seq<char>, Option<Moment>>::empty(),
    {
        SaturationTracker { blocked: Table::new() }
    }

    /// Whether `owner` should be offered a window at `now`. A block whose deadline has
    /// come is dropped as it is found.
    pub fn may_offer(&mut self, owner: &str, now: Moment) -> (r: bool)
        requires
            old(self).wf(),
        ensures
            final(self).wf(),
            r == offerable(old(self)@, owner@, now),
            final(self)@ == if r {
                old(self)@.remove(owner@)
            } else {
                old(self)@
            },
    {
        let open: bool = match self.blocked.get(owner) {
            None => true,
            Some(None) => false,
            Some(Some(until)) => until.nanos <= now.nanos,
        };
        if open {
            let _ = self.blocked.remove(owner);
        }
        open
    }

    /// Record a refusal: one that waiting clears up to the end of `cooldown`, any other
    /// for good.
    pub fn refused(&mut self, owner: &str, refusal: &StoreRefusal, now: Moment, cooldown: Span)
        requires
            old(self).wf(),
            refusal.transient() ==> now.nanos + cooldown.nanos <= u64::MAX,
        ensures
            final(self).wf(),
            final(self)@ == old(self)@.insert(
                owner@,
                if refusal.transient() {
                    Some(Moment { nanos: (now.nanos + cooldown.nanos) as u64 })
                } else {
                    None
                },
            ),
    {
        let until: Option<Moment> = if refusal.is_transient() {
            Some(now.plus(cooldown))
        } else {
            None
        };
        self.blocked.insert(owner, until);
    }

    /// Forget a peer: one that membership replaced is a fresh daemon.
    pub fn forget(&mut self, owner: &str)
        requires
            old(self).wf(),
        ensures
            final(self).wf(),
            final(self)@ == old(self)@.remove(owner@),
    {
        let _ = self.blocked.remove(owner);
    }

    /// How many peers are blocked, those whose deadline has come unseen among them.
    pub fn blocked_count(&self) -> (n: usize)
        requires
            self.wf(),
        ensures
            self@.dom().finite(),
            n == self@.dom().len(),
    {
        self.blocked.len()
    }
}

/// A refusal clears by waiting exactly where it is one of load: a full budget or a race. One that
/// the peer gives for the window's size, or for good, or in words that are not known, does not.
pub proof fn only_load_clears_by_waiting(refusal: StoreRefusal)
    ensures
        refusal is BudgetExhausted ==> refusal.transient(),
        refusal is RacingUpload ==> refusal.transient(),
        refusal is OversizedForBudget ==> !refusal.transient(),
        refusal is NotAccepting ==> !refusal.transient(),
        refusal is Unknown ==> !refusal.transient(),
{
}

/// A refusal for load blocks its owner until the cooldown is over, and no longer; any
/// other refusal blocks it at every time.
pub proof fn a_block_lasts_as_long_as_its_reason(
    blocked: Map<Seq<char>, Option<Moment>>,
    owner: Seq<char>,
    refusal: StoreRefusal,
    refused_at: Moment,
    cooldown: Span,
    asked_at: Moment,
)
    requires
        refused_at.nanos + cooldown.nanos <= u64::MAX,
    ensures
        ({
            let after = blocked.insert(
                owner,
                if refusal.transient() {
                    Some(Moment { nanos: (refused_at.nanos + cooldown.nanos) as u64 })
                } else {
                    None
                },
            );
            offerable(after, owner, asked_at) <==> refusal.transient() && asked_at.nanos
                >= refused_at.nanos + cooldown.nanos
        }),
{
}

/// Something that a tracker is told or asked.
pub enum TrackerEvent {
    /// Whether an owner is worth offering to.
    Asked {
        owner: Seq<char>,
        now: Moment,
    },
    /// An owner refused.
    Refused {
        owner: Seq<char>,
        refusal: StoreRefusal,
        now: Moment,
        cooldown: Span,
    },
    /// A peer is to be forgotten.
    Forgotten {
        owner: Seq<char>,
    },
}

/// Who is blocked once these things happened, one after the other: what
/// [`SaturationTracker::may_offer`], [`SaturationTracker::refused`] and
/// [`SaturationTracker::forget`] say.
pub open spec fn blocked_after(
    blocked: Map<Seq<char>, Option<Moment>>,
    events: Seq<TrackerEvent>,
) -> Map<Seq<char>, Option<Moment>>
    decreases events.len(),
{
    if events.len() == 0 {
        blocked
    } else {
        let before = blocked_after(blocked, events.drop_last());
        match events.last() {
            TrackerEvent::Asked { owner, now } => if offerable(before, owner, now) {
                before.remove(owner)
            } else {
                before
            },
            TrackerEvent::Refused { owner, refusal, now, cooldown } => before.insert(
                owner,
                if refusal.transient() {
                    Some(Moment { nanos: (now.nanos + cooldown.nanos) as u64 })
                } else {
                    None
                },
            ),
            TrackerEvent::Forgotten { owner } => before.remove(owner),
        }
    }
}

/// A forgotten peer may be offered to at any time, whatever it refused before, and whatever
/// happens but for a new refusal of its own.
pub proof fn a_forgotten_peer_is_offered_to_until_it_refuses(
    blocked: Map<Seq<char>, Option<Moment>>,
    owner: Seq<char>,
    events: Seq<TrackerEvent>,
    asked_at: Moment,
)
    requires
        forall|i: int|
            0 <= i < events.len() ==> (#[trigger] events[i] matches TrackerEvent::Refused {
                owner: refuser,
                ..
            } ==> refuser != owner),
    ensures
        !blocked_after(blocked.remove(owner), events).contains_key(owner),
        offerable(blocked_after(blocked.remove(owner), events), owner, asked_at),
    decreases events.len(),
{
    if events.len() > 0 {
        let front = events.drop_last();
        assert forall|i: int| 0 <= i < front.len() implies (#[trigger] front[i] matches
            TrackerEvent::Refused { owner: refuser, .. } ==> refuser != owner) by {
            assert(front[i] == events[i]);
        }
        a_forgotten_peer_is_offered_to_until_it_refuses(blocked, owner, front, asked_at);
        assert(events.last() == events[events.len() - 1]);
    }
}

/// Forgetting a peer changes nothing for any other. One fewer is blocked where the peer was,
/// and as many as before where it was not; and forgetting it twice is forgetting it once.
pub proof fn forgetting_unblocks_one_peer(
    blocked: Map<Seq<char>, Option<Moment>>,
    owner: Seq<char>,
    other: Seq<char>,
    asked_at: Moment,
)
    requires
        blocked.dom().finite(),
    ensures
        offerable(blocked.remove(owner), owner, asked_at),
        other != owner ==> (offerable(blocked.remove(owner), other, asked_at) <==> offerable(
            blocked,
            other,
            asked_at,
        )),
        blocked.remove(owner).dom().finite(),
        blocked.remove(owner).dom().len() == if blocked.contains_key(owner) {
            blocked.dom().len() - 1
        } else {
            blocked.dom().len() as int
        },
        blocked.remove(owner).remove(owner) == blocked.remove(owner),
{
    assert(blocked.remove(owner).dom() =~= blocked.dom().remove(owner));
    assert(blocked.remove(owner).remove(owner) =~= blocked.remove(owner));
}

// ---- cutting the body ----

/// Reassembles an arbitrarily framed body into windows of exactly `chunk_size` bytes.
///
/// A body arrives framed however the network framed it, so a window boundary rarely
/// meets a buffer boundary. The remainder is carried across, and only full windows
/// are handed out until the end of the body.
pub struct WindowSplitter {
    chunk_size: usize,
    carry: VecDeque<Bytes>,
    carried: usize,
}

impl WindowSplitter {
    /// The size of every window but the last.
    pub closed spec fn window(&self) -> nat {
        self.chunk_size as nat
    }

    /// The bytes received and not yet handed out.
    pub closed spec fn pending(&self) -> Seq<u8> {
        joined(self.carry@)
    }

    /// The byte count is exact, windows are not empty, and no empty buffer is held.
    pub closed spec fn wf(&self) -> bool {
        &&& self.chunk_size > 0
        &&& self.carried == joined(self.carry@).len()
        &&& forall|i: int| 0 <= i < self.carry@.len() ==> bytes_of(#[trigger] self.carry@[i]).len() > 0
    }

    /// A splitter that hands out windows of `chunk_size` bytes.
    pub fn new(chunk_size: usize) -> (s: Self)
        requires
            chunk_size > 0,
        ensures
            s.wf(),
            s.window() == chunk_size,
            s.pending() == Seq::<u8>::empty(),
    {
        WindowSplitter { chunk_size, carry: VecDeque::new(), carried: 0 }
    }

    /// Accept one source buffer. An empty buffer changes nothing.
    pub fn push(&mut self, bytes: Bytes)
        requires
            old(self).wf(),
            old(self).pending().len() + bytes_of(bytes).len() <= usize::MAX,
        ensures
            final(self).wf(),
            final(self).window() == old(self).window(),
            final(self).pending() == old(self).pending() + bytes_of(bytes),
    {
        if bytes.is_empty() {
            assert(self.pending() + bytes_of(bytes) =~= self.pending());
            return;
        }
        proof {
            lemma_joined_push(self.carry@, bytes);
        }
        self.carried += bytes.len();
        self.carry.push_back(bytes);
    }

    /// Bytes held and not yet handed out.
    pub fn carried(&self) -> (n: usize)
        requires
            self.wf(),
        ensures
            n == self.pending().len(),
    {
        self.carried
    }

    /// Hand out one full window, or `None` where fewer bytes than that are held.
    pub fn take_window(&mut self) -> (r: Option<Bytes>)
        requires
            old(self).wf(),
            old(self).pending().len() >= old(self).window() ==> old(self).window() <= isize::MAX,
        ensures
            final(self).wf(),
            final(self).window() == old(self).window(),
            match r {
                Some(w) => window_of(old(self).window(), old(self).pending()) == Some(bytes_of(w)),
                None => window_of(old(self).window(), old(self).pending()) is None,
            },
            final(self).pending() == left_of(old(self).window(), old(self).pending()),
    {
        if self.carried < self.chunk_size {
            return None;
        }
        let size: usize = self.chunk_size;
        let ghost before = self.pending();
        self.carried -= size;
        if let Some(mut head) = self.carry.pop_front() {
            let ghost whole = bytes_of(head);
            let ghost rest = self.carry@;
            assert(before == whole + joined(rest));
            if head.len() >= size {
                let window = head.split_to(size);
                assert(bytes_of(window) =~= before.take(size as int));
                if !head.is_empty() {
                    let ghost left = head;
                    self.carry.push_front(head);
                    assert(self.carry@.subrange(1, self.carry@.len() as int) =~= rest);
                    assert(self.carry@[0] == left);
                    assert forall|i: int| 0 <= i < self.carry@.len() implies bytes_of(
                        #[trigger] self.carry@[i],
                    ).len() > 0 by {
                        if i > 0 {
                            assert(self.carry@[i] == rest[i - 1]);
                        }
                    }
                }
                assert(joined(self.carry@) =~= before.skip(size as int));
                return Some(window);
            }
            let ghost left = head;
            self.carry.push_front(head);
            assert(self.carry@.subrange(1, self.carry@.len() as int) =~= rest);
            assert(self.carry@[0] == left);
            assert forall|i: int| 0 <= i < self.carry@.len() implies bytes_of(
                #[trigger] self.carry@[i],
            ).len() > 0 by {
                if i > 0 {
                    assert(self.carry@[i] == rest[i - 1]);
                }
            }
            assert(joined(self.carry@) == before);
        }
        Some(self.drain_exact(size))
    }

    /// Hand out all that is left as a final, possibly short window, or `None` where
    /// nothing is left.
    pub fn take_tail(&mut self) -> (r: Option<Bytes>)
        requires
            old(self).wf(),
            old(self).pending().len() <= isize::MAX,
        ensures
            final(self).wf(),
            final(self).window() == old(self).window(),
            final(self).pending() == Seq::<u8>::empty(),
            match r {
                Some(w) => tail_of(old(self).pending()) == Some(bytes_of(w)),
                None => tail_of(old(self).pending()) is None,
            },
    {
        if self.carried == 0 {
            assert(self.pending() =~= Seq::<u8>::empty());
            return None;
        }
        let len: usize = self.carried;
        self.carried = 0;
        let ghost before = self.pending();
        let tail = self.drain_exact(len);
        assert(before.take(len as int) =~= before);
        assert(before.skip(len as int) =~= Seq::<u8>::empty());
        Some(tail)
    }

    /// Join exactly `len` bytes off the front.
    fn drain_exact(&mut self, len: usize) -> (r: Bytes)
        requires
            len <= joined(old(self).carry@).len(),
            len <= isize::MAX,
            old(self).chunk_size > 0,
            old(self).carried == joined(old(self).carry@).len() - len,
            forall|i: int|
                0 <= i < old(self).carry@.len() ==> bytes_of(#[trigger] old(self).carry@[i]).len()
                    > 0,
        ensures
            final(self).wf(),
            final(self).window() == old(self).window(),
            bytes_of(r) == old(self).pending().take(len as int),
            final(self).pending() == old(self).pending().skip(len as int),
    {
        let ghost before = joined(self.carry@);
        let mut out = BytesMut::with_capacity(len);
        assert(buffered(out) + joined(self.carry@) =~= before);
        while out.len() < len
            invariant
                len <= isize::MAX,
                len <= before.len(),
                buffered(out).len() <= len,
                buffered(out) + joined(self.carry@) == before,
                self.chunk_size == old(self).chunk_size,
                self.carried == old(self).carried,
                forall|i: int|
                    0 <= i < self.carry@.len() ==> bytes_of(#[trigger] self.carry@[i]).len() > 0,
            decreases len - buffered(out).len(),
        {
            let need: usize = len - out.len();
            let ghost rest = self.carry@;
            let ghost done = buffered(out);
            match self.carry.pop_front() {
                Some(mut head) => {
                    let ghost whole = bytes_of(head);
                    let ghost after = self.carry@;
                    if head.len() <= need {
                        append(&mut out, &head);
                        assert(buffered(out) + joined(self.carry@) =~= done + (whole + joined(
                            after,
                        )));
                    } else {
                        let front = head.split_to(need);
                        append(&mut out, &front);
                        let ghost left = head;
                        self.carry.push_front(head);
                        assert(self.carry@.subrange(1, self.carry@.len() as int) =~= after);
                        assert(self.carry@[0] == left);
                        assert forall|i: int| 0 <= i < self.carry@.len() implies bytes_of(
                            #[trigger] self.carry@[i],
                        ).len() > 0 by {
                            if i > 0 {
                                assert(self.carry@[i] == after[i - 1]);
                            }
                        }
                        assert(whole =~= bytes_of(front) + bytes_of(left));
                        assert(buffered(out) + joined(self.carry@) =~= done + (whole + joined(
                            after,
                        )));
                    }
                },
                None => {
                    assert(joined(rest).len() == 0);
                    assert(false);
                },
            }
        }
        assert(buffered(out) =~= before.take(len as int));
        assert(joined(self.carry@) =~= before.skip(len as int));
        out.freeze()
    }
}

/// The bytes of all buffers of a body, in the order in which they came. A step of a
/// body is a buffer that came, or `None` where a window was asked for.
pub open spec fn body_of(steps: Seq<Option<Seq<u8>>>) -> Seq<u8>
    decreases steps.len(),
{
    if steps.len() == 0 {
        Seq::empty()
    } else {
        match steps.last() {
            Some(buffer) => body_of(steps.drop_last()) + buffer,
            None => body_of(steps.drop_last()),
        }
    }
}

/// What [`WindowSplitter::take_window`] hands out of the bytes held: a full window, or nothing
/// where there are fewer.
pub open spec fn window_of(size: nat, pending: Seq<u8>) -> Option<Seq<u8>> {
    if pending.len() >= size {
        Some(pending.take(size as int))
    } else {
        None
    }
}

/// What is still held once [`WindowSplitter::take_window`] was asked for a window.
pub open spec fn left_of(size: nat, pending: Seq<u8>) -> Seq<u8> {
    if pending.len() >= size {
        pending.skip(size as int)
    } else {
        pending
    }
}

/// What a splitter has handed out and what it still holds after those steps: what
/// [`WindowSplitter::push`] and [`WindowSplitter::take_window`] say, one after the
/// other.
pub open spec fn split_after(size: nat, steps: Seq<Option<Seq<u8>>>) -> (Seq<Seq<u8>>, Seq<u8>)
    decreases steps.len(),
{
    if steps.len() == 0 {
        (Seq::empty(), Seq::empty())
    } else {
        let (windows, pending) = split_after(size, steps.drop_last());
        match steps.last() {
            Some(buffer) => (windows, pending + buffer),
            None => match window_of(size, pending) {
                Some(window) => (windows.push(window), left_of(size, pending)),
                None => (windows, left_of(size, pending)),
            },
        }
    }
}

/// What [`WindowSplitter::take_tail`] hands out of the bytes still held: all of them, or
/// nothing where there are none.
pub open spec fn tail_of(pending: Seq<u8>) -> Option<Seq<u8>> {
    if pending.len() > 0 {
        Some(pending)
    } else {
        None
    }
}

/// Windows put end to end.
pub open spec fn end_to_end(windows: Seq<Seq<u8>>) -> Seq<u8>
    decreases windows.len(),
{
    if windows.len() == 0 {
        Seq::empty()
    } else {
        end_to_end(windows.drop_last()) + windows.last()
    }
}

/// However a body is framed and whenever windows are taken, the windows handed out and
/// the bytes still held are the body, in order and without loss; and every window
/// handed out is full. The tail is what is still held, so that body and windows agree
/// at its end.
pub proof fn windows_reassemble_the_body(size: nat, steps: Seq<Option<Seq<u8>>>)
    ensures
        end_to_end(split_after(size, steps).0) + split_after(size, steps).1 == body_of(steps),
        end_to_end(split_after(size, steps).0.push(split_after(size, steps).1)) == body_of(steps),
        forall|i: int|
            0 <= i < split_after(size, steps).0.len() ==> (#[trigger] split_after(
                size,
                steps,
            ).0[i]).len() == size,
    decreases steps.len(),
{
    let (after, held) = split_after(size, steps);
    if steps.len() > 0 {
        windows_reassemble_the_body(size, steps.drop_last());
        let (windows, pending) = split_after(size, steps.drop_last());
        match steps.last() {
            Some(buffer) => {
                assert(end_to_end(windows) + (pending + buffer) =~= (end_to_end(windows) + pending)
                    + buffer);
            },
            None => {
                if pending.len() >= size {
                    let w = pending.take(size as int);
                    let rest = pending.skip(size as int);
                    assert(windows.push(w).drop_last() =~= windows);
                    assert((end_to_end(windows) + w) + rest =~= end_to_end(windows) + pending);
                }
            },
        }
    } else {
        assert(end_to_end(after) + held =~= body_of(steps));
    }
    assert(after.push(held).drop_last() =~= after);
}

/// Full windows put end to end: as many bytes as they have, and each where it belongs.
pub proof fn lemma_full_windows(size: nat, windows: Seq<Seq<u8>>, index: nat)
    requires
        forall|i: int| 0 <= i < windows.len() ==> (#[trigger] windows[i]).len() == size,
    ensures
        end_to_end(windows).len() == windows.len() * size,
        index < windows.len() ==> {
            &&& (index + 1) * size <= windows.len() * size
            &&& windows[index as int] == end_to_end(windows).subrange(
                (index * size) as int,
                ((index + 1) * size) as int,
            )
        },
    decreases windows.len(),
{
    if windows.len() > 0 {
        let front = windows.drop_last();
        let n = front.len();
        assert forall|i: int| 0 <= i < front.len() implies (#[trigger] front[i]).len() == size by {
            assert(front[i] == windows[i]);
        }
        lemma_full_windows(size, front, index);
        assert((n + 1) * size == n * size + size) by (nonlinear_arith);
        assert((index + 1) * size == index * size + size) by (nonlinear_arith);
        if index < n {
            assert(front[index as int] == windows[index as int]);
            assert(end_to_end(windows).subrange(
                (index * size) as int,
                ((index + 1) * size) as int,
            ) =~= end_to_end(front).subrange((index * size) as int, ((index + 1) * size) as int));
        } else if index == n {
            assert(end_to_end(windows).subrange((n * size) as int, ((n + 1) * size) as int)
                =~= windows.last());
        }
    } else {
        assert(0 * size == 0) by (nonlinear_arith);
    }
}

/// What is handed out of a body once no full window is held, and the tail is taken: its
/// windows of `size` bytes, one after the other, and then the tail.
pub open spec fn cut(size: nat, body: Seq<u8>) -> (Seq<Seq<u8>>, Option<Seq<u8>>) {
    let full = body.len() / size;
    (
        Seq::new(
            full,
            |i: int| body.subrange(i * size as int, (i + 1) * size as int),
        ),
        tail_of(body.skip((full * size) as int)),
    )
}

/// Those steps, and then `more` windows asked for.
pub open spec fn asked_on(steps: Seq<Option<Seq<u8>>>, more: nat) -> Seq<Option<Seq<u8>>> {
    steps + Seq::new(more, |i: int| None::<Seq<u8>>)
}

/// Asking for a window takes one off what is held, until less than one is.
proof fn lemma_asked_on(size: nat, steps: Seq<Option<Seq<u8>>>, more: nat)
    requires
        size > 0,
    ensures
        ({
            let held = split_after(size, steps).1.len() as int;
            let left = split_after(size, asked_on(steps, more)).1.len() as int;
            left < size || left == held - more * size
        }),
        body_of(asked_on(steps, more)) == body_of(steps),
    decreases more,
{
    if more == 0 {
        assert(asked_on(steps, 0) =~= steps);
        assert(0 * size == 0) by (nonlinear_arith);
    } else {
        let less = (more - 1) as nat;
        lemma_asked_on(size, steps, less);
        assert(asked_on(steps, more).drop_last() =~= asked_on(steps, less));
        assert(asked_on(steps, more).last() is None);
        assert(more * size == less * size + size) by (nonlinear_arith)
            requires
                more == less + 1,
        ;
    }
}

/// Whoever asks for windows until none comes has as many as the body holds: after enough
/// askings less than one is held, and the windows and the tail are those of the body,
/// whatever happened before.
pub proof fn asking_on_cuts_all_of_a_body(size: nat, steps: Seq<Option<Seq<u8>>>, more: nat)
    requires
        size > 0,
        more >= split_after(size, steps).1.len() / size,
    ensures
        ({
            let (windows, held) = split_after(size, asked_on(steps, more));
            &&& window_of(size, held) is None
            &&& (windows, tail_of(held)) == cut(size, body_of(steps))
        }),
{
    let held = split_after(size, steps).1.len();
    lemma_asked_on(size, steps, more);
    vstd::arithmetic::div_mod::lemma_fundamental_div_mod(held as int, size as int);
    vstd::arithmetic::div_mod::lemma_mod_bound(held as int, size as int);
    assert(more * size >= size * (held / size)) by (nonlinear_arith)
        requires
            more >= held / size,
            size > 0,
    ;
    framing_does_not_change_the_cut(size, asked_on(steps, more));
}

/// The windows and the tail of a body are decided by the body and the window size alone,
/// however it was framed and whenever windows were taken: `body / size` full windows in
/// order, and then a tail of the `body % size` bytes that are left, or none where none are.
/// Put end to end they are the body.
pub proof fn framing_does_not_change_the_cut(size: nat, steps: Seq<Option<Seq<u8>>>)
    requires
        size > 0,
        split_after(size, steps).1.len() < size,
    ensures
        ({
            let (windows, held) = split_after(size, steps);
            let body = body_of(steps);
            &&& (windows, tail_of(held)) == cut(size, body)
            &&& windows.len() == body.len() / size
            &&& forall|i: int| 0 <= i < windows.len() ==> (#[trigger] windows[i]).len() == size
            &&& tail_of(held) is None <==> body.len() % size == 0
            &&& tail_of(held) matches Some(tail) ==> tail.len() == body.len() % size
            &&& match tail_of(held) {
                Some(tail) => end_to_end(windows.push(tail)) == body,
                None => end_to_end(windows) == body,
            }
        }),
{
    let (windows, held) = split_after(size, steps);
    let body = body_of(steps);
    let n = windows.len();
    windows_reassemble_the_body(size, steps);
    lemma_full_windows(size, windows, 0);
    let front = end_to_end(windows);
    assert(body =~= front + held);
    assert(body.len() == n * size + held.len());
    vstd::arithmetic::div_mod::lemma_fundamental_div_mod_converse(
        body.len() as int,
        size as int,
        n as int,
        held.len() as int,
    );
    assert(body.skip((n * size) as int) =~= held);
    assert forall|i: int| 0 <= i < n implies #[trigger] windows[i] == body.subrange(
        i * size as int,
        (i + 1) * size as int,
    ) by {
        lemma_full_windows(size, windows, i as nat);
        assert((i + 1) * size as int <= n * size as int) by (nonlinear_arith)
            requires
                0 <= i < n,
        ;
        assert(0 <= i * size as int <= (i + 1) * size as int) by (nonlinear_arith)
            requires
                0 <= i,
        ;
        assert(body.subrange(i * size as int, (i + 1) * size as int) =~= front.subrange(
            i * size as int,
            (i + 1) * size as int,
        ));
    }
    assert(windows =~= cut(size, body).0);
    if held.len() == 0 {
        assert(front + held =~= front);
    }
}

} // verus!
