//! Getting one window's bytes into the client's memory, whoever writes them.
//!
//! A window is placed, or the decline says whether trying again could help. The order in
//! which copies of a chunk are asked for is that of an ordinary read: delivery does not
//! change which copy answers, only where its bytes end up. A chunk that this node fills is
//! read under the same single flight, so that deliveries and reads with a body share one
//! backend read.

use bytes::Bytes;
use vstd::prelude::*;

use crate::answer::{failure, ErrorCode, Failure};
use crate::blob::{bytes_of, slice_of};
use crate::chunk::chunk_span;
use crate::fill::{
    claim_fits, next_source, plain_read, with_leader, with_published, AfterRead, FillClaim, FillCtx,
    FillGuard, Phase, Resolve, ServedFrom,
};
use crate::read::chunk_of;
use crate::target::ClientMemory;

verus! {

/// One covering chunk of a delivered range.
#[derive(Clone, Copy, Debug, PartialEq, Eq, Structural)]
pub struct ChunkWindow {
    /// The chunk's index.
    pub idx: u64,
    /// Where the wanted bytes begin in the chunk.
    pub src_at: usize,
    /// Where they go in the client's window.
    pub dst_at: usize,
    /// How many they are.
    pub len: usize,
    /// Whether they are the whole chunk.
    pub whole: bool,
}

/// Where the bytes of a window came from.
#[derive(Clone, Copy, Debug, PartialEq, Eq, Structural)]
pub enum PlacedFrom {
    /// The local cache.
    Local,
    /// A remote holder, which wrote the client's memory itself.
    PeerRdma,
    /// A remote holder, which streamed them here.
    PeerStream,
    /// The backend.
    Backend,
}

impl PlacedFrom {
    /// The name under which such windows are counted.
    pub fn label(&self) -> (r: &'static str)
        ensures
            r@ == match *self {
                PlacedFrom::Local => "local"@,
                PlacedFrom::PeerRdma => "peer_rdma"@,
                PlacedFrom::PeerStream => "peer_stream"@,
                PlacedFrom::Backend => "backend"@,
            },
    {
        match *self {
            PlacedFrom::Local => "local",
            PlacedFrom::PeerRdma => "peer_rdma",
            PlacedFrom::PeerStream => "peer_stream",
            PlacedFrom::Backend => "backend",
        }
    }
}

/// A checksum of some bytes, and how many they are.
#[derive(Clone, Copy, Debug, PartialEq, Eq, Structural)]
pub struct DeliveryDigest {
    /// Their CRC32.
    pub crc32: u32,
    /// Their number.
    pub len: u64,
}

/// A window that was placed.
#[derive(Clone, Copy, Debug, PartialEq, Eq, Structural)]
pub struct Placed {
    /// How many bytes reached the client.
    pub bytes: u64,
    /// Their checksum, where placing them made one.
    pub digest: Option<DeliveryDigest>,
    /// Where they came from.
    pub source: PlacedFrom,
}

/// Why a write into client-registered memory was declined.
#[derive(Clone, Copy, Debug, PartialEq, Eq, Structural)]
pub enum TokenDecline {
    /// The client could not be announced to in time.
    NotAnnounceable,
    /// The client has not installed this writer yet.
    WriterNotInstalled,
    /// No rail of this node works.
    NoHealthyRail,
    /// No rail of the descriptor can be addressed from here.
    NotAddressable,
    /// The body fits no staging range.
    BodyExceedsStaging,
    /// This node has no plane to write with at all.
    NoPlane,
}

impl TokenDecline {
    /// Whether the client may yet catch up while the request is in flight.
    pub open spec fn transient(&self) -> bool {
        self is NotAnnounceable || self is WriterNotInstalled
    }

    /// Whether the client may yet catch up while the request is in flight.
    pub fn is_transient(&self) -> (r: bool)
        ensures
            r == self.transient(),
    {
        matches!(self, TokenDecline::NotAnnounceable | TokenDecline::WriterNotInstalled)
    }

    /// The reason under which such declines are counted.
    pub fn label(&self) -> (r: &'static str)
        ensures
            r@ == match *self {
                TokenDecline::NotAnnounceable => "not_announceable"@,
                TokenDecline::WriterNotInstalled => "writer_not_installed"@,
                TokenDecline::NoHealthyRail => "no_healthy_rail"@,
                TokenDecline::NotAddressable => "not_addressable"@,
                TokenDecline::BodyExceedsStaging => "body_exceeds_staging"@,
                TokenDecline::NoPlane => "no_rdma_plane"@,
            },
    {
        match *self {
            TokenDecline::NotAnnounceable => "not_announceable",
            TokenDecline::WriterNotInstalled => "writer_not_installed",
            TokenDecline::NoHealthyRail => "no_healthy_rail",
            TokenDecline::NotAddressable => "not_addressable",
            TokenDecline::BodyExceedsStaging => "body_exceeds_staging",
            TokenDecline::NoPlane => "no_rdma_plane",
        }
    }
}

/// What became of one window's bytes.
#[derive(Clone, Copy, Debug, PartialEq, Eq, Structural)]
pub enum Placement {
    /// They are in the client's memory.
    Placed(Placed),
    /// They are not, and no harm was done.
    Declined(TokenDecline),
}

impl Placement {
    /// The placement, if there was one.
    pub fn placed(self) -> (r: Option<Placed>)
        ensures
            r == match self {
                Placement::Placed(p) => Some(p),
                Placement::Declined(_) => None,
            },
    {
        match self {
            Placement::Placed(p) => Some(p),
            Placement::Declined(_) => None,
        }
    }
}

// ---- trying again ----

/// How many times a window is tried again after a decline that may pass.
pub const DELIVERY_DECLINE_ATTEMPTS: u64 = 3;

/// The first wait before trying again, in milliseconds. Each later one is twice as long.
pub const DELIVERY_DECLINE_BACKOFF_MS: u64 = 50;

/// The wait before attempt `n + 1`, counted from one, in milliseconds.
pub open spec fn backoff(n: nat) -> nat
    decreases n,
{
    if n <= 1 {
        DELIVERY_DECLINE_BACKOFF_MS as nat
    } else {
        2 * backoff((n - 1) as nat)
    }
}

/// All waits up to the one before attempt `n + 1`, together.
pub open spec fn total_backoff(n: nat) -> nat
    decreases n,
{
    if n == 0 {
        0
    } else {
        total_backoff((n - 1) as nat) + backoff(n)
    }
}

/// Whether a window is tried again after its `attempt`-th try, counted from one: only
/// where it was declined, the decline may pass, and tries are left.
pub open spec fn tried_again(attempt: nat, placement: Placement) -> bool {
    attempt <= DELIVERY_DECLINE_ATTEMPTS && (placement matches Placement::Declined(d)
        && d.transient())
}

/// How long to wait before a window is tried again, in milliseconds, or `None` where the
/// placement stands. `attempt` counts the tries so far, this one among them.
pub fn place_with_retry(attempt: u64, placement: &Placement) -> (r: Option<u64>)
    requires
        attempt >= 1,
    ensures
        r is Some <==> tried_again(attempt as nat, *placement),
        r matches Some(ms) ==> ms == backoff(attempt as nat),
{
    match placement {
        Placement::Declined(d) => {
            if !d.is_transient() || attempt > DELIVERY_DECLINE_ATTEMPTS {
                return None;
            }
            let mut ms: u64 = DELIVERY_DECLINE_BACKOFF_MS;
            let mut n: u64 = 1;
            proof {
                reveal_with_fuel(backoff, 4);
            }
            while n < attempt
                invariant
                    1 <= n <= attempt <= DELIVERY_DECLINE_ATTEMPTS,
                    ms == backoff(n as nat),
                    backoff(1) == 50,
                    backoff(2) == 100,
                    backoff(3) == 200,
                decreases attempt - n,
            {
                ms = ms * 2;
                n += 1;
            }
            Some(ms)
        },
        Placement::Placed(_) => None,
    }
}

/// A window whose decline may pass is tried again after its first, second and third try, and not
/// after a later one; the waits are 50 milliseconds and then each twice the one before. What may
/// pass is that the client has not caught up yet, and nothing else.
pub proof fn a_passing_decline_is_tried_again(attempt: nat, d: TokenDecline, other: Placement)
    requires
        attempt >= 1,
        !(other is Declined),
    ensures
        !tried_again(attempt, other),
        d is NotAnnounceable || d is WriterNotInstalled ==> (tried_again(
            attempt,
            Placement::Declined(d),
        ) <==> attempt <= 3),
        d is NoHealthyRail || d is NotAddressable || d is BodyExceedsStaging || d is NoPlane
            ==> !tried_again(attempt, Placement::Declined(d)),
        backoff(1) == 50,
        backoff(attempt + 1) == 2 * backoff(attempt),
        total_backoff(attempt) == total_backoff((attempt - 1) as nat) + backoff(attempt),
        total_backoff(0) == 0,
{
}

/// A window is tried again three times at most, after waits that add up to 350
/// milliseconds; and one whose decline is final is not tried again at all.
pub proof fn trying_again_is_bounded(attempt: nat, placement: Placement)
    ensures
        tried_again(attempt, placement) ==> attempt <= 3,
        total_backoff(3) == 350,
        (placement matches Placement::Declined(d) && !d.transient()) ==> !tried_again(
            attempt,
            placement,
        ),
        placement is Placed ==> !tried_again(attempt, placement),
{
    reveal_with_fuel(backoff, 4);
    reveal_with_fuel(total_backoff, 4);
}

// ---- which copy answers ----

/// What delivering one window does next.
#[derive(Debug)]
pub enum DeliverStep {
    /// Place the cached chunk.
    PlaceLocal,
    /// Claim the chunk's key, to lead or to join its fill.
    Claim,
    /// Await what the leader publishes.
    Await,
    /// Place these bytes, which another request read.
    Place {
        /// The chunk.
        body: Bytes,
        /// Where it came from.
        source: PlacedFrom,
    },
    /// Read the chunk from the backend and publish it under the claim that was won; and keep
    /// it, where `keep` says so.
    Lead {
        /// The claim.
        guard: FillGuard,
        /// Whether the chunk is kept.
        keep: bool,
    },
    /// Ask the source of that position to write the client's memory itself.
    AskWrite(usize),
    /// Ask the source of that position for the chunk.
    AskStream(usize),
    /// Read the chunk from the backend, and keep it where the flag says so.
    Read {
        /// Whether the chunk is kept.
        keep: bool,
    },
    /// The window is placed.
    Done(Placed),
}

/// The step once the sources below `index` have had their turn. `writable` tells whether
/// a holder may write this window itself.
pub open spec fn next_deliverer(sources: nat, writable: bool, index: nat) -> DeliverStep {
    if index < sources {
        if writable {
            DeliverStep::AskWrite(index as usize)
        } else {
            DeliverStep::AskStream(index as usize)
        }
    } else {
        DeliverStep::Read { keep: false }
    }
}

/// How a source answered a request for the chunk, and what became of its bytes.
#[derive(Clone, Copy, Debug, PartialEq, Eq, Structural)]
pub enum StreamAnswer {
    /// They came, and were placed.
    Placed(Placed),
    /// They came, and could not be placed.
    NotPlaced,
    /// The stream broke.
    Broken,
    /// It does not hold the chunk.
    NotCached,
    /// Any other failure.
    Failed,
}

/// Whether a holder may write a window itself. It writes whole chunks only; into mapped
/// memory once that is registered; and into client-registered memory where remote writes
/// are on.
pub open spec fn holder_may_write(
    whole: bool,
    memory: ClientMemory,
    has_plane: bool,
    registered: bool,
    remote_write: bool,
) -> bool {
    whole && has_plane && match memory {
        ClientMemory::Mapped { len } => registered,
        ClientMemory::Token { len, checksum } => remote_write,
    }
}

/// Whether a holder may write a window itself.
pub fn holder_writes_client(
    window: &ChunkWindow,
    memory: &ClientMemory,
    has_plane: bool,
    registered: bool,
    remote_write: bool,
) -> (r: bool)
    ensures
        r == holder_may_write(window.whole, *memory, has_plane, registered, remote_write),
{
    window.whole && has_plane && match *memory {
        ClientMemory::Mapped { .. } => registered,
        ClientMemory::Token { .. } => remote_write,
    }
}

/// A holder writes a window itself only where there is a plane to write with and the window is a
/// whole chunk, and then exactly where the memory lets it: memory that this node maps once it is
/// registered, whether remote writes are on or not, and memory that the client registered where
/// they are on.
pub proof fn when_a_holder_writes(
    whole: bool,
    len: usize,
    checksum: bool,
    has_plane: bool,
    registered: bool,
    remote_write: bool,
)
    ensures
        holder_may_write(
            whole,
            ClientMemory::Mapped { len },
            has_plane,
            registered,
            remote_write,
        ) <==> whole && has_plane && registered,
        holder_may_write(
            whole,
            ClientMemory::Token { len, checksum },
            has_plane,
            registered,
            remote_write,
        ) <==> whole && has_plane && remote_write,
{
}

fn deliverer(sources: usize, writable: bool, index: usize) -> (r: DeliverStep)
    ensures
        r == next_deliverer(sources as nat, writable, index as nat),
{
    if index < sources {
        if writable {
            DeliverStep::AskWrite(index)
        } else {
            DeliverStep::AskStream(index)
        }
    } else {
        DeliverStep::Read { keep: false }
    }
}

/// The first step of delivering a window: a cached chunk is placed; one that this node
/// fills is read through, under the single flight where that is on; any other is asked for.
pub open spec fn first_deliverer(ctx: FillCtx, cached: bool, writable: bool) -> DeliverStep {
    if cached {
        DeliverStep::PlaceLocal
    } else if ctx.owns {
        if ctx.coalesce {
            DeliverStep::Claim
        } else {
            DeliverStep::Read { keep: ctx.may_fill }
        }
    } else {
        next_deliverer(ctx.sources as nat, writable, 0)
    }
}

/// The first step of delivering a window.
pub fn deliver_window(ctx: &FillCtx, cached: bool, writable: bool) -> (r: DeliverStep)
    ensures
        r == first_deliverer(*ctx, cached, writable),
{
    if cached {
        DeliverStep::PlaceLocal
    } else if ctx.owns {
        if ctx.coalesce {
            DeliverStep::Claim
        } else {
            DeliverStep::Read { keep: ctx.may_fill }
        }
    } else {
        deliverer(ctx.sources, writable, 0)
    }
}

/// The step after a claim: the leader reads, and publishes whether it keeps the chunk or
/// not; bytes that are here are placed; bytes that are coming are awaited; and a claim that
/// publishes nothing leaves this window on its own.
pub open spec fn deliver_claimed(ctx: FillCtx, claim: FillClaim) -> DeliverStep {
    match claim {
        FillClaim::Lead(guard) => DeliverStep::Lead { guard, keep: ctx.may_fill },
        FillClaim::Ready(body) => DeliverStep::Place { body, source: PlacedFrom::Backend },
        FillClaim::Follow => DeliverStep::Await,
        FillClaim::Busy => DeliverStep::Read { keep: ctx.may_fill },
    }
}

/// The step after a wait: the leader's bytes are placed, and where none came the chunk is
/// read as it would have been without it.
pub open spec fn deliver_waited(ctx: FillCtx, published: Option<Bytes>) -> DeliverStep {
    match published {
        Some(body) => DeliverStep::Place { body, source: PlacedFrom::Backend },
        None => DeliverStep::Read { keep: ctx.may_fill },
    }
}

/// The step after a claim.
pub fn delivery_claimed(ctx: &FillCtx, claim: FillClaim) -> (r: DeliverStep)
    ensures
        r == deliver_claimed(*ctx, claim),
{
    match claim {
        FillClaim::Lead(guard) => DeliverStep::Lead { guard, keep: ctx.may_fill },
        FillClaim::Ready(body) => DeliverStep::Place { body, source: PlacedFrom::Backend },
        FillClaim::Follow => DeliverStep::Await,
        FillClaim::Busy => DeliverStep::Read { keep: ctx.may_fill },
    }
}

/// The step after a wait.
pub fn delivery_waited(ctx: &FillCtx, published: Option<Bytes>) -> (r: DeliverStep)
    ensures
        r == deliver_waited(*ctx, published),
{
    match published {
        Some(body) => DeliverStep::Place { body, source: PlacedFrom::Backend },
        None => DeliverStep::Read { keep: ctx.may_fill },
    }
}

/// The step after the source at `index` was asked to write: what it did not place is asked
/// of it as a stream.
pub open spec fn after_write(index: nat, placed: Option<Placed>) -> DeliverStep {
    match placed {
        Some(p) => DeliverStep::Done(p),
        None => DeliverStep::AskStream(index as usize),
    }
}

/// The step after the source at `index` was asked for the chunk: bytes that cannot be
/// placed send the window to the backend, and a source that had none to the next.
pub open spec fn after_stream(
    sources: nat,
    writable: bool,
    index: nat,
    answer: StreamAnswer,
) -> DeliverStep {
    match answer {
        StreamAnswer::Placed(p) => DeliverStep::Done(p),
        StreamAnswer::NotPlaced => DeliverStep::Read { keep: false },
        _ => next_deliverer(sources, writable, index + 1),
    }
}

/// The step after a source was asked to write.
pub fn write_asked(index: usize, placed: Option<Placed>) -> (r: DeliverStep)
    ensures
        r == after_write(index as nat, placed),
{
    match placed {
        Some(p) => DeliverStep::Done(p),
        None => DeliverStep::AskStream(index),
    }
}

/// The step after a source was asked for the chunk, and whether its answer counts as a
/// fallback.
pub fn deliver_from_peer(ctx: &FillCtx, writable: bool, index: usize, answer: StreamAnswer) -> (r: (
    DeliverStep,
    bool,
))
    requires
        index < ctx.sources,
    ensures
        r.0 == after_stream(ctx.sources as nat, writable, index as nat, answer),
        r.1 <==> answer is Broken || answer is Failed,
{
    match answer {
        StreamAnswer::Placed(p) => (DeliverStep::Done(p), false),
        StreamAnswer::NotPlaced => (DeliverStep::Read { keep: false }, false),
        StreamAnswer::NotCached => (deliverer(ctx.sources, writable, index + 1), false),
        StreamAnswer::Broken | StreamAnswer::Failed => (
            deliverer(ctx.sources, writable, index + 1),
            true,
        ),
    }
}

/// Every source is asked in turn: to write, where a holder may write the window, and then to
/// stream what it did not place. One that has nothing is followed by the next. Behind the last,
/// and for bytes that cannot be placed, the backend is read and nothing is kept.
pub proof fn every_source_is_asked_to_deliver(
    sources: nat,
    writable: bool,
    index: nat,
    placed: Placed,
    answer: StreamAnswer,
)
    requires
        index < sources <= usize::MAX,
    ensures
        next_deliverer(sources, writable, index) == if writable {
            DeliverStep::AskWrite(index as usize)
        } else {
            DeliverStep::AskStream(index as usize)
        },
        next_deliverer(sources, writable, sources) == (DeliverStep::Read { keep: false }),
        after_write(index, Some(placed)) == DeliverStep::Done(placed),
        after_write(index, None) == DeliverStep::AskStream(index as usize),
        answer matches StreamAnswer::Placed(p) ==> after_stream(sources, writable, index, answer)
            == DeliverStep::Done(p),
        answer is NotPlaced ==> after_stream(sources, writable, index, answer)
            == (DeliverStep::Read { keep: false }),
        !(answer is Placed) && !(answer is NotPlaced) ==> after_stream(
            sources,
            writable,
            index,
            answer,
        ) == if index + 1 < sources {
            if writable {
                DeliverStep::AskWrite((index + 1) as usize)
            } else {
                DeliverStep::AskStream((index + 1) as usize)
            }
        } else {
            DeliverStep::Read { keep: false }
        },
{
}

/// Where a delivery ends that follows the positions which its steps name, when each source
/// would write and stream as listed. `turns` is how many times a source may be asked.
pub open spec fn delivery_from(
    step: DeliverStep,
    writable: bool,
    writes: Seq<Option<Placed>>,
    streams: Seq<StreamAnswer>,
    turns: nat,
) -> DeliverStep
    decreases turns,
{
    match step {
        DeliverStep::AskWrite(at) if at < writes.len() && turns > 0 => delivery_from(
            after_write(at as nat, writes[at as int]),
            writable,
            writes,
            streams,
            (turns - 1) as nat,
        ),
        DeliverStep::AskStream(at) if at < streams.len() && turns > 0 => delivery_from(
            after_stream(streams.len(), writable, at as nat, streams[at as int]),
            writable,
            writes,
            streams,
            (turns - 1) as nat,
        ),
        _ => step,
    }
}

/// The delivery from a position on.
proof fn lemma_delivery_from(
    writable: bool,
    writes: Seq<Option<Placed>>,
    streams: Seq<StreamAnswer>,
    index: nat,
    first: nat,
    turns: nat,
)
    requires
        writes.len() == streams.len() <= usize::MAX,
        index <= first <= streams.len(),
        forall|i: int|
            index <= i < first ==> (writable ==> writes[i] is None) && !(#[trigger] streams[i]
                is Placed) && !(streams[i] is NotPlaced),
        turns >= 2 * (streams.len() - index),
    ensures
        first == streams.len() ==> delivery_from(
            next_deliverer(streams.len(), writable, index),
            writable,
            writes,
            streams,
            turns,
        ) == (DeliverStep::Read { keep: false }),
        first < streams.len() && writable && writes[first as int] is Some ==> delivery_from(
            next_deliverer(streams.len(), writable, index),
            writable,
            writes,
            streams,
            turns,
        ) == DeliverStep::Done(writes[first as int]->0),
        first < streams.len() && (!writable || writes[first as int] is None) && streams[first as int]
            is Placed ==> delivery_from(
            next_deliverer(streams.len(), writable, index),
            writable,
            writes,
            streams,
            turns,
        ) == DeliverStep::Done(streams[first as int]->Placed_0),
        first < streams.len() && (!writable || writes[first as int] is None) && streams[first as int]
            is NotPlaced ==> delivery_from(
            next_deliverer(streams.len(), writable, index),
            writable,
            writes,
            streams,
            turns,
        ) == (DeliverStep::Read { keep: false }),
    decreases streams.len() - index,
{
    reveal_with_fuel(delivery_from, 3);
    if index < streams.len() {
        let step = next_deliverer(streams.len(), writable, index);
        if index < first {
            assert(!(streams[index as int] is Placed));
            let left = if writable {
                (turns - 2) as nat
            } else {
                (turns - 1) as nat
            };
            lemma_delivery_from(writable, writes, streams, index + 1, first, left);
            assert(after_stream(streams.len(), writable, index, streams[index as int])
                == next_deliverer(streams.len(), writable, index + 1));
            if writable {
                assert(step == DeliverStep::AskWrite(index as usize));
                assert(after_write(index, writes[index as int]) == DeliverStep::AskStream(
                    index as usize,
                ));
                assert(delivery_from(
                    DeliverStep::AskStream(index as usize),
                    writable,
                    writes,
                    streams,
                    (turns - 1) as nat,
                ) == delivery_from(
                    next_deliverer(streams.len(), writable, index + 1),
                    writable,
                    writes,
                    streams,
                    left,
                ));
            }
        }
    }
}

/// A window of a missed chunk that this node does not fill is delivered by the first of its
/// sources that has anything to deliver, however many there are: what it wrote itself, or what
/// it streamed. Where none has, and where what came cannot be placed, the backend is read and
/// nothing is kept.
pub proof fn a_missed_window_is_delivered_by_its_first_holder(
    ctx: FillCtx,
    writable: bool,
    writes: Seq<Option<Placed>>,
    streams: Seq<StreamAnswer>,
    first: nat,
)
    requires
        !ctx.owns,
        writes.len() == ctx.sources,
        streams.len() == ctx.sources,
        first <= ctx.sources,
        forall|i: int|
            0 <= i < first ==> (writable ==> writes[i] is None) && !(#[trigger] streams[i]
                is Placed) && !(streams[i] is NotPlaced),
    ensures
        ({
            let end = delivery_from(
                first_deliverer(ctx, false, writable),
                writable,
                writes,
                streams,
                2 * streams.len(),
            );
            &&& first == ctx.sources ==> end == (DeliverStep::Read { keep: false })
            &&& first < ctx.sources ==> if writable && writes[first as int] is Some {
                end == DeliverStep::Done(writes[first as int]->0)
            } else {
                &&& streams[first as int] is Placed ==> end == DeliverStep::Done(
                    streams[first as int]->Placed_0,
                )
                &&& streams[first as int] is NotPlaced ==> end == (DeliverStep::Read {
                    keep: false,
                })
            }
        }),
        first_deliverer(ctx, true, writable) is PlaceLocal,
{
    lemma_delivery_from(writable, writes, streams, 0, first, 2 * streams.len());
}

/// A chunk that is cached is placed from here; a missed one that this node fills is read under
/// the flight where that is on, and else as the read may keep it; and one whose leader publishes
/// nothing, or that publishes for nobody, is read so too.
pub proof fn how_an_owner_delivers(ctx: FillCtx, writable: bool, guard: FillGuard, body: Bytes)
    requires
        ctx.owns,
    ensures
        first_deliverer(ctx, true, writable) is PlaceLocal,
        ctx.coalesce ==> first_deliverer(ctx, false, writable) is Claim,
        !ctx.coalesce ==> first_deliverer(ctx, false, writable) == (DeliverStep::Read {
            keep: ctx.may_fill,
        }),
        deliver_claimed(ctx, FillClaim::Busy) == (DeliverStep::Read { keep: ctx.may_fill }),
        deliver_waited(ctx, None) == (DeliverStep::Read { keep: ctx.may_fill }),
        deliver_waited(ctx, Some(body)) == (DeliverStep::Place {
            body,
            source: PlacedFrom::Backend,
        }),
        deliver_claimed(ctx, FillClaim::Follow) is Await,
        deliver_claimed(ctx, FillClaim::Lead(guard)) == (DeliverStep::Lead {
            guard,
            keep: ctx.may_fill,
        }),
        deliver_claimed(ctx, FillClaim::Ready(body)) == (DeliverStep::Place {
            body,
            source: PlacedFrom::Backend,
        }),
{
}

/// Whether a step of a delivery does what a step of a read with a body does: it takes the
/// same copy of the chunk, under the same claim, and keeps it as much.
pub open spec fn same_copy(step: DeliverStep, read: Resolve) -> bool {
    match (step, read) {
        (DeliverStep::PlaceLocal, Resolve::Serve { body, from }) => from is Cache,
        (DeliverStep::Claim, Resolve::Claim) => true,
        (DeliverStep::Await, Resolve::Await) => true,
        (DeliverStep::Place { body, source }, Resolve::Serve { body: served, from }) => body
            == served && source is Backend && from is Flight,
        (
            DeliverStep::Lead { guard, keep },
            Resolve::Read(AfterRead::Lead { guard: held, keep: kept }),
        ) => guard == held && keep == kept,
        (DeliverStep::AskWrite(i), Resolve::Ask(j)) => i == j,
        (DeliverStep::AskStream(i), Resolve::Ask(j)) => i == j,
        (DeliverStep::Read { keep }, _) => read == plain_read(keep),
        _ => false,
    }
}

/// Delivery asks for the same copies in the same order as a read with a body: the local
/// one; where this node fills the chunk, the backend's, through whoever leads its read; and
/// otherwise the peers' one after the other and the backend's last.
pub proof fn delivery_asks_for_the_same_copies(
    ctx: FillCtx,
    cached: Option<Bytes>,
    first: Resolve,
    writable: bool,
    claim: FillClaim,
    published: Option<Bytes>,
    index: nat,
)
    requires
        cached matches Some(body) ==> first == (Resolve::Serve { body, from: ServedFrom::Cache }),
        cached is None && ctx.owns ==> first == ctx.owned(),
        cached is None && !ctx.owns ==> first == next_source(ctx.sources as nat, 0),
    ensures
        same_copy(first_deliverer(ctx, cached is Some, writable), first),
        same_copy(deliver_claimed(ctx, claim), ctx.after_claim(claim)),
        same_copy(deliver_waited(ctx, published), ctx.after_wait(published)),
        same_copy(
            next_deliverer(ctx.sources as nat, writable, index),
            next_source(ctx.sources as nat, index),
        ),
{
}

/// Deliveries and reads with a body share one backend read of a chunk that this node fills:
/// of all that miss it while its key is claimed by one of them, with the single flight on,
/// that one alone reads. Whoever comes before it has published waits; whoever comes after,
/// and whoever waited, gets the bytes that it read. Arrivals leave the claims as they are, so
/// that this holds of any number of them.
pub proof fn one_backend_read_serves_deliveries_and_reads(
    leading: FillCtx,
    joining: FillCtx,
    claims: Map<Seq<char>, Phase>,
    key: Seq<char>,
    first: FillClaim,
    second: FillClaim,
    third: FillClaim,
    bytes: Bytes,
    writable: bool,
)
    requires
        leading.owns && leading.coalesce,
        joining.owns && joining.coalesce,
        !claims.contains_key(key),
        claim_fits(claims.get(key), key, first),
        claim_fits(with_leader(claims, key).get(key), key, second),
        claim_fits(
            with_published(with_leader(claims, key), key, bytes_of(bytes)).get(key),
            key,
            third,
        ),
    ensures
        first_deliverer(leading, false, writable) is Claim,
        leading.owned() is Claim,
        deliver_claimed(leading, first) matches DeliverStep::Lead { guard, keep } && guard.key()
            == key && keep == leading.may_fill,
        leading.after_claim(first) matches Resolve::Read(AfterRead::Lead { guard, keep })
            && guard.key() == key && keep == leading.may_fill,
        with_leader(with_leader(claims, key), key) == with_leader(claims, key),
        with_leader(with_published(with_leader(claims, key), key, bytes_of(bytes)), key)
            == with_published(with_leader(claims, key), key, bytes_of(bytes)),
        deliver_claimed(joining, second) is Await,
        joining.after_claim(second) is Await,
        deliver_waited(joining, Some(bytes)) == (DeliverStep::Place {
            body: bytes,
            source: PlacedFrom::Backend,
        }),
        joining.after_wait(Some(bytes)) == (Resolve::Serve {
            body: bytes,
            from: ServedFrom::Flight,
        }),
        deliver_claimed(joining, third) matches DeliverStep::Place { body, source } && bytes_of(
            body,
        ) == bytes_of(bytes) && source is Backend,
        joining.after_claim(third) matches Resolve::Serve { body, from } && bytes_of(body)
            == bytes_of(bytes) && from is Flight,
{
}

// ---- a holder's answer ----

/// How a holder answered that was asked to write the client's memory.
#[derive(Debug)]
pub enum HolderAnswer {
    /// It wrote that many bytes, and reported their checksum where one was asked for.
    Landed {
        /// How many.
        bytes: u64,
        /// Their CRC32.
        crc32: Option<u32>,
    },
    /// It streamed the chunk here in place of writing it.
    Streamed(Bytes),
    /// It streamed, and the stream broke.
    Broken,
    /// It does not hold the chunk.
    NotCached,
    /// Any other failure.
    Failed,
}

/// What a holder's answer leaves to do.
#[derive(Debug)]
pub enum HolderStep {
    /// Nothing: the window is placed.
    Placed(Placed),
    /// Place these bytes from here.
    PlaceHere(Bytes),
    /// It did not deliver.
    NotDelivered,
}

/// What a holder's answer leaves to do, and whether it counts as a fallback. The checksum
/// of a window that this node can read back is read back: it proves what is in the
/// client's memory. Of any other window the holder's report is all there is.
pub fn holder_answered(memory: &ClientMemory, answer: HolderAnswer) -> (r: (HolderStep, bool))
    ensures
        match answer {
            HolderAnswer::Landed { bytes, crc32 } => r.0 == HolderStep::Placed(
                Placed {
                    bytes,
                    digest: match (*memory, crc32) {
                        (ClientMemory::Token { len, checksum }, Some(crc)) => Some(
                            DeliveryDigest { crc32: crc, len: bytes },
                        ),
                        _ => None,
                    },
                    source: PlacedFrom::PeerRdma,
                },
            ),
            HolderAnswer::Streamed(body) => r.0 == HolderStep::PlaceHere(body),
            _ => r.0 is NotDelivered,
        },
        r.1 <==> answer is Broken || answer is Failed,
{
    match answer {
        HolderAnswer::Landed { bytes, crc32 } => {
            let digest: Option<DeliveryDigest> = match (memory, crc32) {
                (ClientMemory::Token { .. }, Some(crc)) => Some(
                    DeliveryDigest { crc32: crc, len: bytes },
                ),
                _ => None,
            };
            (HolderStep::Placed(Placed { bytes, digest, source: PlacedFrom::PeerRdma }), false)
        },
        HolderAnswer::Streamed(body) => (HolderStep::PlaceHere(body), false),
        HolderAnswer::NotCached => (HolderStep::NotDelivered, false),
        HolderAnswer::Broken | HolderAnswer::Failed => (HolderStep::NotDelivered, true),
    }
}

// ---- placing a body from here ----

/// The part of a chunk's body that a window wants. A body shorter than the window gives
/// what it has.
pub open spec fn window_part(body: Seq<u8>, src_at: nat, len: nat) -> Seq<u8> {
    let from = if src_at < body.len() {
        src_at
    } else {
        body.len()
    };
    let to = if src_at + len < body.len() {
        src_at + len
    } else {
        body.len()
    };
    body.subrange(from as int, to as int)
}

/// The part of a chunk's body that a window wants.
pub fn window_slice(body: &Bytes, window: &ChunkWindow) -> (r: Bytes)
    requires
        window.src_at + window.len <= usize::MAX,
    ensures
        bytes_of(r) == window_part(bytes_of(*body), window.src_at as nat, window.len as nat),
{
    let n: usize = body.len();
    let from: usize = if window.src_at < n {
        window.src_at
    } else {
        n
    };
    let end: usize = window.src_at + window.len;
    let to: usize = if end < n {
        end
    } else {
        n
    };
    slice_of(body, from, to)
}

/// A window of a chunk that holds it gets all of it: as many bytes as it wants, each the one
/// that stands as far behind `src_at` in the chunk as it stands in the window. One that the
/// chunk does not hold gets what there is, and no byte from elsewhere.
pub proof fn a_window_gets_its_bytes(body: Seq<u8>, src_at: nat, len: nat, k: int)
    ensures
        src_at + len <= body.len() ==> window_part(body, src_at, len).len() == len,
        src_at <= body.len() < src_at + len ==> window_part(body, src_at, len).len() == body.len()
            - src_at,
        src_at > body.len() ==> window_part(body, src_at, len).len() == 0,
        0 <= k < window_part(body, src_at, len).len() ==> window_part(body, src_at, len)[k]
            == body[src_at + k],
{
}

/// Client memory once `part` was placed at `at`.
pub open spec fn with_placed(memory: Seq<u8>, at: nat, part: Seq<u8>) -> Seq<u8> {
    Seq::new(
        memory.len(),
        |i: int|
            if at <= i < at + part.len() {
                part[i - at]
            } else {
                memory[i]
            },
    )
}

/// Client memory once the windows of an object's chunks were placed in it, one after the other.
pub open spec fn with_windows(
    memory: Seq<u8>,
    object: Seq<u8>,
    size: nat,
    windows: Seq<ChunkWindow>,
) -> Seq<u8>
    decreases windows.len(),
{
    if windows.len() == 0 {
        memory
    } else {
        let w = windows.last();
        with_placed(
            with_windows(memory, object, size, windows.drop_last()),
            w.dst_at as nat,
            window_part(
                chunk_of(object, size, w.idx as nat),
                w.src_at as nat,
                w.len as nat,
            ),
        )
    }
}

/// Whether a window is one of a range that starts at `start`: its bytes lie in its chunk, and
/// they go where they stand in the range.
pub open spec fn of_range(w: ChunkWindow, object: Seq<u8>, size: nat, start: nat) -> bool {
    &&& w.src_at + w.len <= chunk_of(object, size, w.idx as nat).len()
    &&& start + w.dst_at == w.idx * size + w.src_at
}

/// Whether a window covers a position of the range.
pub open spec fn covers(w: ChunkWindow, at: int) -> bool {
    w.dst_at <= at < w.dst_at + w.len
}

/// A delivery puts the object's bytes of the range into the client's memory: wherever a window
/// of the range covers it, the memory holds the object's byte of that position, and elsewhere
/// what it held before. Windows that cover the range thus deliver all of it.
pub proof fn a_delivery_gives_the_range(
    memory: Seq<u8>,
    object: Seq<u8>,
    size: nat,
    start: nat,
    windows: Seq<ChunkWindow>,
    at: int,
)
    requires
        size > 0,
        0 <= at < memory.len(),
        forall|i: int|
            0 <= i < windows.len() ==> of_range(#[trigger] windows[i], object, size, start),
    ensures
        with_windows(memory, object, size, windows).len() == memory.len(),
        (exists|i: int| 0 <= i < windows.len() && covers(#[trigger] windows[i], at))
            ==> with_windows(memory, object, size, windows)[at] == object[start + at],
        (forall|i: int| 0 <= i < windows.len() ==> !covers(#[trigger] windows[i], at))
            ==> with_windows(memory, object, size, windows)[at] == memory[at],
    decreases windows.len(),
{
    if windows.len() > 0 {
        let front = windows.drop_last();
        let w = windows.last();
        assert(w == windows[windows.len() - 1]);
        assert forall|i: int| 0 <= i < front.len() implies of_range(
            #[trigger] front[i],
            object,
            size,
            start,
        ) by {
            assert(front[i] == windows[i]);
        }
        a_delivery_gives_the_range(memory, object, size, start, front, at);
        let chunk = chunk_of(object, size, w.idx as nat);
        let part = window_part(chunk, w.src_at as nat, w.len as nat);
        assert(of_range(w, object, size, start));
        a_window_gets_its_bytes(chunk, w.src_at as nat, w.len as nat, at - w.dst_at);
        if covers(w, at) {
            assert(chunk_span(size, w.idx as nat, object.len()) is Some);
            let idx = w.idx as nat;
            assert((idx + 1) * size == idx * size + size) by (nonlinear_arith);
            assert(0 <= idx * size) by (nonlinear_arith);
            assert(chunk[w.src_at + (at - w.dst_at)] == object[idx * size + (w.src_at + (at
                - w.dst_at))]);
            assert(part[at - w.dst_at] == chunk[w.src_at + (at - w.dst_at)]);
            assert(part[at - w.dst_at] == object[start + at]);
        } else {
            if exists|i: int| 0 <= i < windows.len() && covers(#[trigger] windows[i], at) {
                let i = choose|i: int| 0 <= i < windows.len() && covers(#[trigger] windows[i], at);
                assert(front[i] == windows[i]);
            }
            if forall|i: int| 0 <= i < windows.len() ==> !covers(#[trigger] windows[i], at) {
                assert forall|i: int| 0 <= i < front.len() implies !covers(
                    #[trigger] front[i],
                    at,
                ) by {
                    assert(front[i] == windows[i]);
                }
            }
        }
    }
}

/// What a copy into mapped memory amounts to. Its checksum is read back later.
pub fn copy_window(copied: bool, bytes: u64, source: PlacedFrom) -> (r: Result<Placement, Failure>)
    ensures
        copied ==> r == Ok::<Placement, Failure>(
            Placement::Placed(Placed { bytes, digest: None, source }),
        ),
        !copied ==> (r matches Err(f) && f.code is InternalError && f.message@
            == "delivery copy failed"@),
{
    if copied {
        Ok(Placement::Placed(Placed { bytes, digest: None, source }))
    } else {
        Err(failure(ErrorCode::InternalError, "delivery copy failed"))
    }
}

/// How a write into client-registered memory ended.
#[derive(Clone, Copy, Debug, PartialEq, Eq, Structural)]
pub enum TokenWrite {
    /// The bytes are there.
    Written,
    /// The write was not made.
    Declined(TokenDecline),
    /// The write failed.
    Failed,
}

/// What writing a window into client-registered memory does next.
#[derive(Debug)]
pub enum WriteStep {
    /// Write the bytes.
    Write,
    /// Take the checksum of the bytes that were sent.
    Digest,
    /// The window is dealt with.
    Done(Placement),
    /// The request fails.
    Fail(Failure),
}

/// The step of writing a window of `bytes` bytes into client-registered memory. `write`
/// and `digest` are `None` while they were not made; `digest` holds `None` where its task
/// failed. The checksum is of the bytes sent, as the window cannot be read back, and it
/// is taken only where the client wants one.
pub fn write_window(
    has_plane: bool,
    checksum: bool,
    bytes: u64,
    source: PlacedFrom,
    write: Option<TokenWrite>,
    digest: Option<Option<DeliveryDigest>>,
) -> (r: WriteStep)
    ensures
        match r {
            WriteStep::Write => has_plane && write is None,
            WriteStep::Digest => has_plane && write == Some(TokenWrite::Written) && checksum
                && digest is None,
            WriteStep::Done(Placement::Declined(d)) => {
                ||| !has_plane && d is NoPlane
                ||| has_plane && write == Some(TokenWrite::Declined(d))
            },
            WriteStep::Done(Placement::Placed(p)) => has_plane && write == Some(
                TokenWrite::Written,
            ) && p.bytes == bytes && p.source == source && (if checksum {
                p.digest is Some && digest == Some(p.digest)
            } else {
                p.digest is None
            }),
            WriteStep::Fail(f) => has_plane && f.code is InternalError && {
                ||| write == Some(TokenWrite::Failed) && f.message@ == "delivery write failed"@
                ||| write == Some(TokenWrite::Written) && checksum && digest == Some(
                    None::<DeliveryDigest>,
                ) && f.message@ == "delivery checksum failed"@
            },
        },
{
    if !has_plane {
        return WriteStep::Done(Placement::Declined(TokenDecline::NoPlane));
    }
    match write {
        None => WriteStep::Write,
        Some(TokenWrite::Failed) => WriteStep::Fail(
            failure(ErrorCode::InternalError, "delivery write failed"),
        ),
        Some(TokenWrite::Declined(d)) => WriteStep::Done(Placement::Declined(d)),
        Some(TokenWrite::Written) => {
            if !checksum {
                return WriteStep::Done(Placement::Placed(Placed { bytes, digest: None, source }));
            }
            match digest {
                None => WriteStep::Digest,
                Some(None) => WriteStep::Fail(
                    failure(ErrorCode::InternalError, "delivery checksum failed"),
                ),
                Some(Some(d)) => WriteStep::Done(
                    Placement::Placed(Placed { bytes, digest: Some(d), source }),
                ),
            }
        },
    }
}

} // verus!
