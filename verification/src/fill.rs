//! Resolving one chunk, and the single flight that stops two resolutions from doing the
//! same backend read.
//!
//! Two things are kept apart. At most one fill per chunk key runs on a node, and its
//! claim is always given back. And, with the single flight on, the reads of a chunk that
//! this node fills share one backend read, whether they answer with a body or deliver into
//! client memory: whoever finds the key free leads, and everyone else is routed to the
//! leader's bytes. A claim that publishes nothing leaves a read on its own.

use bytes::{Bytes, BytesMut};
use vstd::prelude::*;

use crate::answer::{failure, ErrorCode, Failure};
use crate::blob::{append, buffered, bytes_of, joined};
use crate::chunk::{chunk_span, ChunkConfig};
use crate::cluster::NodeId;
use crate::read::ReadDecision;
use crate::table::Table;

verus! {

// ---- claims ----

/// What one claimed chunk key is doing.
#[derive(Debug)]
enum FillState {
    /// A leader is reading the chunk and will publish its bytes.
    Fetching,
    /// The leader has published these and not finished yet.
    Filled(Bytes),
    /// Claimed for a write alone. Nothing will be published.
    Exclusive,
}

/// A claim as values.
pub enum Phase {
    /// A leader is reading the chunk: wait for its bytes.
    Fetching,
    /// The leader's bytes are here: take them.
    Filled(Seq<u8>),
    /// Nothing will ever be published: fetch your own.
    Exclusive,
}

/// A state as values.
spec fn phase_of(s: FillState) -> Phase {
    match s {
        FillState::Fetching => Phase::Fetching,
        FillState::Filled(b) => Phase::Filled(bytes_of(b)),
        FillState::Exclusive => Phase::Exclusive,
    }
}

/// The chunk keys that are being filled on this node.
#[derive(Debug)]
pub struct FillRegistry {
    claims: Table<FillState>,
    abandoned: u64,
}

impl View for FillRegistry {
    type V = Map<Seq<char>, Phase>;

    /// What each claimed key is doing.
    closed spec fn view(&self) -> Map<Seq<char>, Phase> {
        self.claims@.map_values(|s: FillState| phase_of(s))
    }
}

/// A live claim on one chunk key. It is given back by [`FillGuard::release`], once.
#[derive(Debug)]
pub struct FillGuard {
    key: String,
    completed: bool,
}

/// What a would-be filler of a chunk key got.
#[derive(Debug)]
pub enum FillClaim {
    /// Nobody else was filling this key: read the backend, publish, insert.
    Lead(FillGuard),
    /// A leader is reading. Await its bytes.
    Follow,
    /// A leader has published already.
    Ready(Bytes),
    /// Held by a path that publishes nothing. Fetch your own bytes.
    Busy,
}

/// The claim that an arrival gets on a key, by what the key is doing.
pub open spec fn claim_fits(phase: Option<Phase>, key: Seq<char>, claim: FillClaim) -> bool {
    match phase {
        None => claim matches FillClaim::Lead(g) && g.key() == key && !g.completed(),
        Some(Phase::Fetching) => claim is Follow,
        Some(Phase::Filled(b)) => claim matches FillClaim::Ready(got) && bytes_of(got) == b,
        Some(Phase::Exclusive) => claim is Busy,
    }
}

/// The claims after a publishing claim of `key` was asked for.
pub open spec fn with_leader(claims: Map<Seq<char>, Phase>, key: Seq<char>) -> Map<
    Seq<char>,
    Phase,
> {
    if claims.contains_key(key) {
        claims
    } else {
        claims.insert(key, Phase::Fetching)
    }
}

/// The claims after `bytes` were published on `key`: a leader's claim holds them, and
/// any other claim stays as it is.
pub open spec fn with_published(
    claims: Map<Seq<char>, Phase>,
    key: Seq<char>,
    bytes: Seq<u8>,
) -> Map<Seq<char>, Phase> {
    if claims.get(key) == Some(Phase::Fetching) {
        claims.insert(key, Phase::Filled(bytes))
    } else {
        claims
    }
}

impl FillGuard {
    /// The claimed key.
    pub closed spec fn key(&self) -> Seq<char> {
        self.key@
    }

    /// Whether the fill finished on its own.
    pub closed spec fn completed(&self) -> bool {
        self.completed
    }

    /// Claim `key` for a write alone, or `None` where it is claimed by anyone, on any
    /// path.
    pub fn for_fill(registry: &mut FillRegistry, key: &str) -> (r: Option<FillGuard>)
        requires
            old(registry).wf(),
        ensures
            final(registry).wf(),
            final(registry).abandoned_count() == old(registry).abandoned_count(),
            r is Some <==> !old(registry)@.contains_key(key@),
            r matches Some(g) ==> g.key() == key@ && !g.completed() && final(registry)@ == old(
                registry,
            )@.insert(key@, Phase::Exclusive),
            r is None ==> final(registry)@ == old(registry)@,
    {
        if registry.claim_exclusive(key) {
            Some(FillGuard { key: key.to_owned(), completed: false })
        } else {
            None
        }
    }

    /// Hand the freshly read bytes to everyone who arrives before the claim is given
    /// back. `true` where they also go to those who wait: a claim that publishes nothing
    /// has none.
    pub fn publish(&self, registry: &mut FillRegistry, bytes: &Bytes) -> (r: bool)
        requires
            old(registry).wf(),
        ensures
            final(registry).wf(),
            final(registry).abandoned_count() == old(registry).abandoned_count(),
            final(registry)@ == with_published(old(registry)@, self.key(), bytes_of(*bytes)),
            r <==> old(registry)@.get(self.key()) == Some(Phase::Fetching),
    {
        registry.publish(self.key.as_str(), bytes)
    }

    /// Mark the fill as finished on its own, rather than cut short.
    pub fn complete(&mut self)
        ensures
            final(self).key() == old(self).key(),
            final(self).completed(),
    {
        self.completed = true;
    }

    /// Give the claim back. A fill that was not completed counts as abandoned.
    pub fn release(self, registry: &mut FillRegistry)
        requires
            old(registry).wf(),
        ensures
            final(registry).wf(),
            final(registry)@ == old(registry)@.remove(self.key()),
            final(registry).abandoned_count() == if self.completed() {
                old(registry).abandoned_count()
            } else {
                next_count(old(registry).abandoned_count())
            },
    {
        registry.release(self.key.as_str());
        if !self.completed {
            registry.abandoned = registry.abandoned.wrapping_add(1);
        }
    }
}

/// A counter one up. It starts over past the largest number.
pub open spec fn next_count(n: u64) -> u64 {
    if n == u64::MAX {
        0
    } else {
        (n + 1) as u64
    }
}

impl FillRegistry {
    /// No key is claimed twice.
    pub closed spec fn wf(&self) -> bool {
        self.claims.wf()
    }

    /// How many fills were cut short so far.
    pub closed spec fn abandoned_count(&self) -> u64 {
        self.abandoned
    }

    /// A registry without a claim.
    pub fn new() -> (r: Self)
        ensures
            r.wf(),
            r@ == Map::<Seq<char>, Phase>::empty(),
            r.abandoned_count() == 0,
    {
        let r = FillRegistry { claims: Table::new(), abandoned: 0 };
        assert(r@ =~= Map::<Seq<char>, Phase>::empty());
        r
    }

    /// Claim `key` for a fill that publishes its bytes, or say who holds it.
    pub fn claim_fill(&mut self, key: &str) -> (r: FillClaim)
        requires
            old(self).wf(),
        ensures
            final(self).wf(),
            final(self).abandoned_count() == old(self).abandoned_count(),
            claim_fits(old(self)@.get(key@), key@, r),
            final(self)@ == with_leader(old(self)@, key@),
    {
        match self.claims.get(key) {
            Some(FillState::Fetching) => {
                return FillClaim::Follow;
            },
            Some(FillState::Filled(bytes)) => {
                return FillClaim::Ready(bytes.clone());
            },
            Some(FillState::Exclusive) => {
                return FillClaim::Busy;
            },
            None => {},
        }
        let ghost start = self@;
        self.claims.insert(key, FillState::Fetching);
        assert(self@ =~= start.insert(key@, Phase::Fetching));
        FillClaim::Lead(FillGuard { key: key.to_owned(), completed: false })
    }

    /// Claim `key` for a write alone. `false` where it is claimed already.
    fn claim_exclusive(&mut self, key: &str) -> (r: bool)
        requires
            old(self).wf(),
        ensures
            final(self).wf(),
            final(self).abandoned_count() == old(self).abandoned_count(),
            r == !old(self)@.contains_key(key@),
            final(self)@ == if r {
                old(self)@.insert(key@, Phase::Exclusive)
            } else {
                old(self)@
            },
    {
        if self.claims.contains(key) {
            return false;
        }
        let ghost start = self@;
        self.claims.insert(key, FillState::Exclusive);
        assert(self@ =~= start.insert(key@, Phase::Exclusive));
        true
    }

    /// Leave `bytes` in a leader's claim. `true` where there was one.
    fn publish(&mut self, key: &str, bytes: &Bytes) -> (r: bool)
        requires
            old(self).wf(),
        ensures
            final(self).wf(),
            final(self).abandoned_count() == old(self).abandoned_count(),
            final(self)@ == with_published(old(self)@, key@, bytes_of(*bytes)),
            r <==> old(self)@.get(key@) == Some(Phase::Fetching),
    {
        match self.claims.get(key) {
            Some(FillState::Fetching) => {},
            _ => {
                return false;
            },
        }
        let ghost start = self@;
        self.claims.insert(key, FillState::Filled(bytes.clone()));
        assert(self@ =~= start.insert(key@, Phase::Filled(bytes_of(*bytes))));
        true
    }

    /// Drop the claim on `key`.
    fn release(&mut self, key: &str)
        requires
            old(self).wf(),
        ensures
            final(self).wf(),
            final(self).abandoned_count() == old(self).abandoned_count(),
            final(self)@ == old(self)@.remove(key@),
    {
        let ghost start = self@;
        let _ = self.claims.remove(key);
        assert(self@ =~= start.remove(key@));
    }

    /// Whether `key` is claimed by anyone.
    pub fn is_claimed(&self, key: &str) -> (r: bool)
        requires
            self.wf(),
        ensures
            r == self@.contains_key(key@),
    {
        self.claims.contains(key)
    }

    /// How many keys are claimed: the fills in flight.
    pub fn len(&self) -> (n: usize)
        requires
            self.wf(),
        ensures
            self@.dom().finite(),
            n == self@.dom().len(),
    {
        assert(self@.dom() =~= self.claims@.dom());
        self.claims.len()
    }

    /// How many fills were cut short.
    pub fn abandoned(&self) -> (n: u64)
        ensures
            n == self.abandoned_count(),
    {
        self.abandoned
    }
}

/// While a key is claimed, no arrival leads: at most one read of a chunk is in flight.
pub proof fn a_claimed_key_has_one_leader(
    claims: Map<Seq<char>, Phase>,
    key: Seq<char>,
    first: FillClaim,
    second: FillClaim,
)
    requires
        claim_fits(claims.get(key), key, first),
        claim_fits(with_leader(claims, key).get(key), key, second),
    ensures
        second !is Lead,
        first is Lead ==> second is Follow,
{
}

/// What a leader publishes is what every arrival takes until the claim is given back.
pub proof fn published_bytes_reach_later_arrivals(
    claims: Map<Seq<char>, Phase>,
    key: Seq<char>,
    bytes: Seq<u8>,
    arrival: FillClaim,
)
    requires
        claims.get(key) == Some(Phase::Fetching),
        claim_fits(with_published(claims, key, bytes).get(key), key, arrival),
    ensures
        arrival matches FillClaim::Ready(got) && bytes_of(got) == bytes,
{
}

/// What an arrival gets, by what the key is doing: a free key is led, under that key and with
/// nothing finished; one that is fetched is followed; one that is filled gives its bytes; and one
/// that is claimed for a write alone gives nothing.
pub proof fn what_an_arrival_gets(key: Seq<char>, bytes: Seq<u8>, claim: FillClaim)
    ensures
        claim_fits(None, key, claim) <==> claim is Lead && claim->Lead_0.key() == key
            && !claim->Lead_0.completed(),
        claim_fits(Some(Phase::Fetching), key, claim) <==> claim is Follow,
        claim_fits(Some(Phase::Filled(bytes)), key, claim) <==> claim is Ready && bytes_of(
            claim->Ready_0,
        ) == bytes,
        claim_fits(Some(Phase::Exclusive), key, claim) <==> claim is Busy,
{
}

/// Only the first bytes that a leader publishes count: publishing again, or on a key that nobody
/// leads, changes nothing. And a key that is claimed stays as it is, whoever asks for it.
pub proof fn a_claim_publishes_once(
    claims: Map<Seq<char>, Phase>,
    key: Seq<char>,
    bytes: Seq<u8>,
    other: Seq<u8>,
)
    ensures
        with_published(with_published(claims, key, bytes), key, other) == with_published(
            claims,
            key,
            bytes,
        ),
        !claims.contains_key(key) ==> with_published(claims, key, bytes) == claims,
        claims.contains_key(key) ==> with_leader(claims, key) == claims,
        !claims.contains_key(key) ==> with_leader(claims, key).get(key) == Some(Phase::Fetching),
        claims.get(key) == Some(Phase::Fetching) ==> with_published(claims, key, bytes).get(key)
            == Some(Phase::Filled(bytes)),
{
}

/// Each fill that is cut short counts one; behind the largest number the count starts over.
pub proof fn a_count_rises_by_one(n: u64)
    ensures
        n < u64::MAX ==> next_count(n) == n + 1,
        next_count(u64::MAX) == 0,
{
}

/// A claim for a write alone is never waited on, whatever is published on it.
pub proof fn an_exclusive_claim_is_never_followed(
    claims: Map<Seq<char>, Phase>,
    key: Seq<char>,
    bytes: Seq<u8>,
    arrival: FillClaim,
)
    requires
        claims.get(key) == Some(Phase::Exclusive),
        claim_fits(with_published(claims, key, bytes).get(key), key, arrival),
    ensures
        arrival is Busy,
{
}

/// A key whose claim was given back is free: the next arrival leads.
pub proof fn a_released_key_is_led_again(
    claims: Map<Seq<char>, Phase>,
    key: Seq<char>,
    arrival: FillClaim,
)
    requires
        claim_fits(claims.remove(key).get(key), key, arrival),
    ensures
        arrival is Lead,
{
}

/// Claiming, publishing and releasing one key changes nothing for another.
pub proof fn claims_on_other_keys_stay(
    claims: Map<Seq<char>, Phase>,
    key: Seq<char>,
    other: Seq<char>,
    bytes: Seq<u8>,
)
    requires
        other != key,
    ensures
        with_leader(claims, key).get(other) == claims.get(other),
        with_published(claims, key, bytes).get(other) == claims.get(other),
        claims.remove(key).get(other) == claims.get(other),
        claims.insert(key, Phase::Exclusive).get(other) == claims.get(other),
{
}

// ---- resolving one chunk ----

/// What a chunk resolution reads of its request and its node.
#[derive(Clone, Copy, Debug)]
pub struct FillCtx {
    /// Whether this node fills the chunk: as one of its homes, or on its own.
    pub owns: bool,
    /// Whether a read joins one that is in flight for the same key.
    pub coalesce: bool,
    /// Whether a chunk that was read is kept.
    pub may_fill: bool,
    /// Whether the request forbids keeping anything, anywhere.
    pub no_fill: bool,
    /// How many peers may be asked for the chunk.
    pub sources: usize,
}

/// The flags of a read, from its decision: a read keeps chunks only where it was told
/// to, and tells its peers where it must not.
pub fn fill_ctx(owns: bool, coalesce: bool, decision: ReadDecision, sources: usize) -> (c: FillCtx)
    ensures
        c.owns == owns,
        c.coalesce == coalesce,
        c.sources == sources,
        c.may_fill <==> decision is CacheAndFill,
        c.no_fill <==> decision is CacheNoFill,
{
    FillCtx {
        owns,
        coalesce,
        may_fill: matches!(decision, ReadDecision::CacheAndFill),
        no_fill: matches!(decision, ReadDecision::CacheNoFill),
        sources,
    }
}

/// Where the bytes of a chunk came from.
#[derive(Clone, Copy, Debug, PartialEq, Eq, Structural)]
pub enum ServedFrom {
    /// The local cache.
    Cache,
    /// Another request's read of the same chunk.
    Flight,
    /// A peer.
    Peer,
}

/// What is done with a chunk once the backend has given it.
#[derive(Debug)]
pub enum AfterRead {
    /// It is served.
    Serve,
    /// It is served, and kept where the key's claim is free.
    Fill,
    /// It is published under the claim that was won; and kept, where `keep` says so.
    Lead {
        /// The claim.
        guard: FillGuard,
        /// Whether the chunk is kept.
        keep: bool,
    },
}

/// What a resolution does next.
#[derive(Debug)]
pub enum Resolve {
    /// Serve these bytes.
    Serve {
        /// The chunk.
        body: Bytes,
        /// Where it came from.
        from: ServedFrom,
    },
    /// Claim the key, to lead or to join its fill.
    Claim,
    /// Await what the leader publishes.
    Await,
    /// Ask the source of that position.
    Ask(usize),
    /// Read the chunk from the backend.
    Read(AfterRead),
}

/// How a peer answered.
#[derive(Debug)]
pub enum PeerAnswer {
    /// With the whole chunk.
    Blob(Bytes),
    /// With a stream that broke.
    Broken,
    /// It does not hold the chunk.
    NotCached,
    /// With any other failure.
    Failed,
}

/// A plain read of the backend, which keeps the chunk or does not.
pub open spec fn plain_read(keep: bool) -> Resolve {
    Resolve::Read(
        if keep {
            AfterRead::Fill
        } else {
            AfterRead::Serve
        },
    )
}

/// The step once the sources below `index` have had their turn: the next of them, or a
/// read of the backend that keeps nothing.
pub open spec fn next_source(sources: nat, index: nat) -> Resolve {
    if index < sources {
        Resolve::Ask(index as usize)
    } else {
        plain_read(false)
    }
}

/// Whether a step may put the chunk into this node's cache.
pub open spec fn may_keep(step: Resolve) -> bool {
    match step {
        Resolve::Read(AfterRead::Fill) => true,
        Resolve::Read(AfterRead::Lead { guard, keep }) => keep,
        _ => false,
    }
}

impl FillCtx {
    fn read(&self, keep: bool) -> (r: Resolve)
        ensures
            r == plain_read(keep),
    {
        if keep {
            Resolve::Read(AfterRead::Fill)
        } else {
            Resolve::Read(AfterRead::Serve)
        }
    }

    fn source(&self, index: usize) -> (r: Resolve)
        ensures
            r == next_source(self.sources as nat, index as nat),
    {
        if index < self.sources {
            Resolve::Ask(index)
        } else {
            self.read(false)
        }
    }

    /// The first step of a resolution, by what the local cache had. A cached chunk is
    /// served; one that this node fills is read through; any other is asked for.
    pub fn resolve_chunk(&self, cached: Option<Bytes>) -> (r: Resolve)
        ensures
            cached matches Some(body) ==> r == (Resolve::Serve { body, from: ServedFrom::Cache }),
            cached is None && self.owns ==> r == self.owned(),
            cached is None && !self.owns ==> r == next_source(self.sources as nat, 0),
    {
        match cached {
            Some(body) => Resolve::Serve { body, from: ServedFrom::Cache },
            None => if self.owns {
                self.fetch_owned()
            } else {
                self.source(0)
            },
        }
    }

    /// How a missed chunk that this node fills is read: under the single flight, where
    /// that is on.
    pub open spec fn owned(&self) -> Resolve {
        if self.coalesce {
            Resolve::Claim
        } else {
            plain_read(self.may_fill)
        }
    }

    /// How a missed chunk that this node fills is read.
    pub fn fetch_owned(&self) -> (r: Resolve)
        ensures
            r == self.owned(),
    {
        if self.coalesce {
            Resolve::Claim
        } else {
            self.read(self.may_fill)
        }
    }

    /// The step after a claim: the leader reads, and publishes whether it keeps the chunk
    /// or not; bytes that are here are taken; bytes that are coming are awaited; and a
    /// claim that publishes nothing leaves this read on its own.
    pub open spec fn after_claim(&self, claim: FillClaim) -> Resolve {
        match claim {
            FillClaim::Lead(guard) => Resolve::Read(AfterRead::Lead { guard, keep: self.may_fill }),
            FillClaim::Ready(body) => Resolve::Serve { body, from: ServedFrom::Flight },
            FillClaim::Follow => Resolve::Await,
            FillClaim::Busy => plain_read(self.may_fill),
        }
    }

    /// The step after a wait: the leader's bytes, or the read that this request would
    /// have made without it.
    pub open spec fn after_wait(&self, published: Option<Bytes>) -> Resolve {
        match published {
            Some(body) => Resolve::Serve { body, from: ServedFrom::Flight },
            None => plain_read(self.may_fill),
        }
    }

    /// The step after a claim.
    pub fn claimed(&self, claim: FillClaim) -> (r: Resolve)
        ensures
            r == self.after_claim(claim),
    {
        match claim {
            FillClaim::Lead(guard) => Resolve::Read(
                AfterRead::Lead { guard, keep: self.may_fill },
            ),
            FillClaim::Ready(body) => Resolve::Serve { body, from: ServedFrom::Flight },
            FillClaim::Follow => Resolve::Await,
            FillClaim::Busy => self.read(self.may_fill),
        }
    }

    /// The step after a wait.
    pub fn waited(&self, published: Option<Bytes>) -> (r: Resolve)
        ensures
            r == self.after_wait(published),
    {
        match published {
            Some(body) => Resolve::Serve { body, from: ServedFrom::Flight },
            None => self.read(self.may_fill),
        }
    }

    /// The step after the source at `index` answered, and whether the answer counts as a
    /// fallback: one that does not hold the chunk is passed over in silence.
    pub fn fetch_from_peer(&self, index: usize, answer: PeerAnswer) -> (r: (Resolve, bool))
        requires
            index < self.sources,
        ensures
            r.0 == after_peer(self.sources as nat, index as nat, answer),
            r.1 <==> answer is Broken || answer is Failed,
    {
        match answer {
            PeerAnswer::Blob(body) => (Resolve::Serve { body, from: ServedFrom::Peer }, false),
            PeerAnswer::NotCached => (self.source(index + 1), false),
            PeerAnswer::Broken | PeerAnswer::Failed => (self.source(index + 1), true),
        }
    }
}

/// The step after the source at `index` answered: a chunk is served, and anything else
/// moves on.
pub open spec fn after_peer(sources: nat, index: nat, answer: PeerAnswer) -> Resolve {
    match answer {
        PeerAnswer::Blob(body) => Resolve::Serve { body, from: ServedFrom::Peer },
        _ => next_source(sources, index + 1),
    }
}

/// Where the walk over the sources ends that starts at `index`, when they would answer
/// as listed.
pub open spec fn walk_ends(answers: Seq<PeerAnswer>, index: nat) -> Resolve
    decreases answers.len() - index,
{
    if index < answers.len() {
        match after_peer(answers.len(), index, answers[index as int]) {
            Resolve::Ask(next) => walk_ends(answers, index + 1),
            end => end,
        }
    } else {
        plain_read(false)
    }
}

/// The first source that has the chunk serves it, whatever those before it answered.
/// Where none has it, the backend is read and nothing is kept.
pub proof fn the_first_holder_serves(answers: Seq<PeerAnswer>, index: nat, first: nat)
    requires
        index <= first <= answers.len() <= usize::MAX,
        forall|i: int| index <= i < first ==> !(#[trigger] answers[i] is Blob),
        first < answers.len() ==> answers[first as int] is Blob,
    ensures
        first < answers.len() ==> walk_ends(answers, index) == (Resolve::Serve {
            body: answers[first as int]->Blob_0,
            from: ServedFrom::Peer,
        }),
        first == answers.len() ==> walk_ends(answers, index) == plain_read(false),
    decreases first - index,
{
    if index < first {
        assert(!(answers[index as int] is Blob));
        the_first_holder_serves(answers, index + 1, first);
        if index + 1 == answers.len() {
            assert(walk_ends(answers, index) == plain_read(false));
        }
    }
}

/// Every source is asked in turn: the step for each position below their number asks just
/// that one, a source that does not serve the chunk is followed by the next, and only behind
/// the last is the backend read, with nothing kept.
pub proof fn every_source_is_asked_in_turn(sources: nat, index: nat, answer: PeerAnswer)
    requires
        index < sources <= usize::MAX,
    ensures
        next_source(sources, index) == Resolve::Ask(index as usize),
        next_source(sources, sources) == Resolve::Read(AfterRead::Serve),
        answer is Blob ==> after_peer(sources, index, answer) == (Resolve::Serve {
            body: answer->Blob_0,
            from: ServedFrom::Peer,
        }),
        !(answer is Blob) && index + 1 < sources ==> after_peer(sources, index, answer)
            == Resolve::Ask((index + 1) as usize),
        !(answer is Blob) && index + 1 == sources ==> after_peer(sources, index, answer)
            == Resolve::Read(AfterRead::Serve),
{
}

/// Where a walk ends that follows the positions which its steps name, when each source would
/// answer as listed. `turns` is how many sources may be asked.
pub open spec fn walk_from(step: Resolve, answers: Seq<PeerAnswer>, turns: nat) -> Resolve
    decreases turns,
{
    match step {
        Resolve::Ask(at) if at < answers.len() && turns > 0 => walk_from(
            after_peer(answers.len(), at as nat, answers[at as int]),
            answers,
            (turns - 1) as nat,
        ),
        _ => step,
    }
}

/// The walk from a position on.
proof fn lemma_walk_from(answers: Seq<PeerAnswer>, index: nat, first: nat, turns: nat)
    requires
        index <= first <= answers.len() <= usize::MAX,
        forall|i: int| index <= i < first ==> !(#[trigger] answers[i] is Blob),
        first < answers.len() ==> answers[first as int] is Blob,
        turns >= answers.len() - index,
    ensures
        walk_from(next_source(answers.len(), index), answers, turns) == if first < answers.len() {
            Resolve::Serve { body: answers[first as int]->Blob_0, from: ServedFrom::Peer }
        } else {
            Resolve::Read(AfterRead::Serve)
        },
    decreases answers.len() - index,
{
    if index < answers.len() {
        every_source_is_asked_in_turn(answers.len(), index, answers[index as int]);
        if index < first {
            assert(!(answers[index as int] is Blob));
            lemma_walk_from(answers, index + 1, first, (turns - 1) as nat);
        }
    }
}

/// A missed chunk that this node does not fill comes from the first of its sources that has
/// it, however many there are and whatever those before it answered; and where none has it,
/// from the backend, and nothing is kept. `step` is the first step of the resolution, and each
/// later one follows from the source that the one before it named.
pub proof fn a_missed_chunk_comes_from_its_first_holder(
    ctx: FillCtx,
    step: Resolve,
    answers: Seq<PeerAnswer>,
    first: nat,
)
    requires
        step == next_source(ctx.sources as nat, 0),
        answers.len() == ctx.sources,
        first <= answers.len(),
        forall|i: int| 0 <= i < first ==> !(#[trigger] answers[i] is Blob),
        first < answers.len() ==> answers[first as int] is Blob,
    ensures
        answers.len() > 0 ==> step == Resolve::Ask(0),
        walk_from(step, answers, answers.len()) == if first < answers.len() {
            Resolve::Serve { body: answers[first as int]->Blob_0, from: ServedFrom::Peer }
        } else {
            Resolve::Read(AfterRead::Serve)
        },
{
    lemma_walk_from(answers, 0, first, answers.len());
    if answers.len() > 0 {
        every_source_is_asked_in_turn(answers.len(), 0, answers[0]);
    }
}

/// A chunk that this node does not fill is never kept by a read of it, whatever its
/// sources answer.
pub proof fn only_an_owner_keeps_what_it_read(answers: Seq<PeerAnswer>, index: nat)
    ensures
        !may_keep(walk_ends(answers, index)),
        !may_keep(next_source(answers.len(), index)),
    decreases answers.len() - index,
{
    if index < answers.len() {
        only_an_owner_keeps_what_it_read(answers, index + 1);
    }
}

/// A read that was told to keep nothing keeps nothing: not on its own, not as a leader,
/// and not after a leader let it down.
pub proof fn a_read_without_fill_keeps_nothing(
    ctx: FillCtx,
    claim: FillClaim,
    published: Option<Bytes>,
)
    requires
        !ctx.may_fill,
    ensures
        !may_keep(ctx.owned()),
        !may_keep(ctx.after_claim(claim)),
        !may_keep(ctx.after_wait(published)),
{
}

/// The flight takes nothing from a read and adds no read to it: where the key is held by one who
/// publishes nothing, and where a leader lets it down, the read is the one that it would have
/// been without the flight. And a read keeps its chunk exactly where it may fill, whether it
/// leads, was let down, or reads without a flight.
pub proof fn a_read_without_a_leader_is_on_its_own(
    ctx: FillCtx,
    alone: FillCtx,
    guard: FillGuard,
    body: Bytes,
)
    requires
        alone == (FillCtx { coalesce: false, ..ctx }),
    ensures
        ctx.coalesce ==> ctx.owned() is Claim,
        ctx.after_claim(FillClaim::Busy) == alone.owned(),
        ctx.after_wait(None) == alone.owned(),
        alone.owned() == Resolve::Read(
            if ctx.may_fill {
                AfterRead::Fill
            } else {
                AfterRead::Serve
            },
        ),
        ctx.after_claim(FillClaim::Lead(guard)) == Resolve::Read(
            AfterRead::Lead { guard, keep: ctx.may_fill },
        ),
        ctx.after_claim(FillClaim::Follow) is Await,
        ctx.after_claim(FillClaim::Ready(body)) == (Resolve::Serve {
            body,
            from: ServedFrom::Flight,
        }),
        ctx.after_wait(Some(body)) == (Resolve::Serve { body, from: ServedFrom::Flight }),
        may_keep(alone.owned()) <==> ctx.may_fill,
        may_keep(ctx.after_claim(FillClaim::Lead(guard))) <==> ctx.may_fill,
{
}

// ---- leading a fill ----

/// The leader's read came back: its bytes are published before they are kept. A read
/// that failed gives the claim back, as abandoned where it was not completed. The flag tells whether there may be
/// followers to hand the bytes to.
pub fn fetch_leading(
    registry: &mut FillRegistry,
    guard: FillGuard,
    read: Result<Bytes, Failure>,
) -> (r: Result<(Bytes, FillGuard, bool), Failure>)
    requires
        old(registry).wf(),
    ensures
        final(registry).wf(),
        match (read, r) {
            (Ok(body), Ok((got, held, told))) => {
                &&& got == body
                &&& held == guard
                &&& told <==> old(registry)@.get(guard.key()) == Some(Phase::Fetching)
                &&& final(registry)@ == with_published(
                    old(registry)@,
                    guard.key(),
                    bytes_of(body),
                )
                &&& final(registry).abandoned_count() == old(registry).abandoned_count()
            },
            (Err(f), Err(e)) => {
                &&& e == f
                &&& final(registry)@ == old(registry)@.remove(guard.key())
                &&& final(registry).abandoned_count() == if guard.completed() {
                    old(registry).abandoned_count()
                } else {
                    next_count(old(registry).abandoned_count())
                }
            },
            _ => false,
        },
{
    match read {
        Ok(body) => {
            let told: bool = guard.publish(registry, &body);
            Ok((body, guard, told))
        },
        Err(f) => {
            guard.release(registry);
            Err(f)
        },
    }
}

/// A fill ran to its end: its claim is given back, and it does not count as abandoned.
pub fn finish_fill(registry: &mut FillRegistry, guard: FillGuard)
    requires
        old(registry).wf(),
    ensures
        final(registry).wf(),
        final(registry)@ == old(registry)@.remove(guard.key()),
        final(registry).abandoned_count() == old(registry).abandoned_count(),
{
    let mut guard = guard;
    guard.complete();
    guard.release(registry);
}

// ---- keeping a peer's chunk ----

/// What is done about a copy of a chunk that a peer served.
#[derive(Clone, Copy, Debug, PartialEq, Eq, Structural)]
pub enum LocalCopy {
    /// Nothing.
    Skip,
    /// Ask whether the chunk has proved hot.
    AskHeat,
    /// Claim the chunk's key for a write.
    Claim,
    /// Keep the chunk, and announce it under that generation.
    Keep {
        /// The generation that came with the answer.
        generation: u64,
    },
}

/// Whether a chunk that a peer served is kept here too. Its heat and the claim are asked
/// for one after the other: `hot` and `claimed` are `None` while they were not. A
/// request that forbids keeping asks neither.
pub fn maybe_admit_local(
    no_fill: bool,
    clustered: bool,
    hot: Option<Option<u64>>,
    claimed: Option<bool>,
) -> (r: LocalCopy)
    ensures
        r == if no_fill || !clustered {
            LocalCopy::Skip
        } else {
            match (hot, claimed) {
                (None, _) => LocalCopy::AskHeat,
                (Some(None), _) => LocalCopy::Skip,
                (Some(Some(_)), None) => LocalCopy::Claim,
                (Some(Some(_)), Some(false)) => LocalCopy::Skip,
                (Some(Some(generation)), Some(true)) => LocalCopy::Keep { generation },
            }
        },
{
    if no_fill || !clustered {
        return LocalCopy::Skip;
    }
    match (hot, claimed) {
        (None, _) => LocalCopy::AskHeat,
        (Some(None), _) => LocalCopy::Skip,
        (Some(Some(_)), None) => LocalCopy::Claim,
        (Some(Some(_)), Some(false)) => LocalCopy::Skip,
        (Some(Some(generation)), Some(true)) => LocalCopy::Keep { generation },
    }
}

/// Whom a kept copy is announced to: the chunk's first home.
pub fn announce_target(homes: &[NodeId]) -> (r: Option<&NodeId>)
    ensures
        match r {
            Some(n) => homes@.len() > 0 && n@ == homes@[0]@,
            None => homes@.len() == 0,
        },
{
    if homes.len() > 0 {
        Some(&homes[0])
    } else {
        None
    }
}

// ---- reading the backend ----

/// How a chunk read ended for good.
#[derive(Clone, Copy, Debug, PartialEq, Eq, Structural)]
pub enum ReadFault {
    /// The backend said that there is no such object.
    Missing,
    /// Every allowed attempt met a fault worth retrying.
    Exhausted,
    /// A fault that retrying cannot fix.
    Permanent,
}

/// A failed read as it is counted and answered.
#[derive(Debug)]
pub struct ReadFailed {
    /// The client's error. It does not repeat the backend's words.
    pub failure: Failure,
    /// The outcome to count, for a read that this node failed to make.
    pub outcome: Option<&'static str>,
    /// How many attempts were retries.
    pub retries: u64,
}

/// The outcome of a read whose every attempt met a fault worth retrying.
pub const READ_FAILURE_EXHAUSTED: &'static str = "exhausted";

/// The outcome of a read that met a fault which retrying cannot fix.
pub const READ_FAILURE_PERMANENT: &'static str = "permanent";

/// The bytes of the object that make up its chunk `idx`.
pub fn chunk_read(chunk: &ChunkConfig, idx: u64, object_len: u64) -> (r: Result<
    std::ops::Range<u64>,
    Failure,
>)
    ensures
        match (chunk_span(chunk.size(), idx as nat, object_len as nat), r) {
            (Some((a, b)), Ok(range)) => range.start == a && range.end == b,
            (None, Err(f)) => f.code is InternalError && f.message@
                == "chunk index past object end"@,
            _ => false,
        },
{
    match chunk.chunk_bounds(idx, object_len) {
        Some(range) => Ok(range),
        None => Err(failure(ErrorCode::InternalError, "chunk index past object end")),
    }
}

/// How many of a read's attempts were retries. A read that issued none has none.
pub fn note_read_retries(attempts: u32) -> (r: u64)
    ensures
        r == if attempts == 0 {
            0
        } else {
            attempts - 1
        },
{
    attempts.saturating_sub(1) as u64
}

/// How a read that failed for good is answered and counted. A missing key is the
/// backend's answer, and no failure of this node.
pub fn note_read_failure(fault: ReadFault, attempts: u32) -> (r: ReadFailed)
    ensures
        r.retries == if attempts == 0 {
            0
        } else {
            attempts - 1
        },
        match fault {
            ReadFault::Missing => r.outcome is None && r.failure.code is NoSuchKey
                && r.failure.message@ == "The specified key does not exist."@,
            ReadFault::Exhausted => r.outcome == Some(READ_FAILURE_EXHAUSTED)
                && r.failure.code is InternalError && r.failure.message@
                == "backend chunk read failed"@,
            ReadFault::Permanent => r.outcome == Some(READ_FAILURE_PERMANENT)
                && r.failure.code is InternalError && r.failure.message@
                == "backend chunk read failed"@,
        },
{
    let retries: u64 = note_read_retries(attempts);
    let outcome: &'static str = match fault {
        ReadFault::Missing => {
            return ReadFailed {
                failure: failure(ErrorCode::NoSuchKey, "The specified key does not exist."),
                outcome: None,
                retries,
            };
        },
        ReadFault::Exhausted => READ_FAILURE_EXHAUSTED,
        ReadFault::Permanent => READ_FAILURE_PERMANENT,
    };
    ReadFailed {
        failure: failure(ErrorCode::InternalError, "backend chunk read failed"),
        outcome: Some(outcome),
        retries,
    }
}

// ---- collecting a blob ----

/// What a stream of parts amounts to: all their bytes in order, or its first error.
pub open spec fn collected<E>(parts: Seq<Result<Bytes, E>>) -> Result<Seq<u8>, E>
    decreases parts.len(),
{
    if parts.len() == 0 {
        Ok(Seq::empty())
    } else {
        match parts[0] {
            Ok(b) => preceded(bytes_of(b), collected(parts.subrange(1, parts.len() as int))),
            Err(e) => Err(e),
        }
    }
}

/// A stream's outcome with more bytes before it.
pub open spec fn preceded<E>(head: Seq<u8>, rest: Result<Seq<u8>, E>) -> Result<Seq<u8>, E> {
    match rest {
        Ok(s) => Ok(head + s),
        Err(e) => Err(e),
    }
}

/// How many bytes arrive before a stream ends or breaks.
pub open spec fn received<E>(parts: Seq<Result<Bytes, E>>) -> nat
    decreases parts.len(),
{
    if parts.len() == 0 {
        0
    } else {
        match parts[0] {
            Ok(b) => bytes_of(b).len() + received(parts.subrange(1, parts.len() as int)),
            Err(e) => 0,
        }
    }
}

/// A stream without an error is all of its parts, end to end; one with an error is its first
/// error, whatever comes behind it.
pub proof fn a_stream_is_its_parts_or_its_first_error<E>(
    parts: Seq<Result<Bytes, E>>,
    bodies: Seq<Bytes>,
    k: int,
)
    requires
        0 <= k <= parts.len(),
        bodies.len() == k,
        forall|i: int| 0 <= i < k ==> #[trigger] parts[i] == Ok::<Bytes, E>(bodies[i]),
        k < parts.len() ==> parts[k] is Err,
    ensures
        k == parts.len() ==> collected(parts) == Ok::<Seq<u8>, E>(joined(bodies)),
        k < parts.len() ==> collected(parts) == Err::<Seq<u8>, E>(parts[k]->Err_0),
        received(parts) == joined(bodies).len(),
    decreases parts.len(),
{
    if k > 0 {
        let rest = parts.subrange(1, parts.len() as int);
        let more = bodies.subrange(1, bodies.len() as int);
        assert(parts[0] == Ok::<Bytes, E>(bodies[0]));
        assert forall|i: int| 0 <= i < k - 1 implies #[trigger] rest[i] == Ok::<Bytes, E>(
            more[i],
        ) by {
            assert(rest[i] == parts[i + 1]);
        }
        a_stream_is_its_parts_or_its_first_error(rest, more, k - 1);
    }
}

/// The whole of a streamed blob, announced to hold `len` bytes. A stream of one part is
/// handed back as it came, without a copy.
pub fn collect_blob<E>(parts: Vec<Result<Bytes, E>>, len: usize) -> (r: Result<Bytes, E>)
    requires
        received(parts@) <= isize::MAX,
        parts@.len() > 1 ==> len <= isize::MAX,
    ensures
        match (collected(parts@), r) {
            (Ok(s), Ok(b)) => bytes_of(b) == s,
            (Err(e), Err(f)) => e == f,
            _ => false,
        },
        parts@.len() == 1 ==> r == parts@[0],
{
    let ghost all = parts@;
    let mut first: Option<Bytes> = None;
    let mut rest: Option<BytesMut> = None;
    let ghost mut head = Seq::<u8>::empty();
    proof {
        assert(all.subrange(0, all.len() as int) =~= all);
        assert(collected(all) == preceded(head, collected(all))) by {
            if let Ok(s) = collected(all) {
                assert(head + s =~= s);
            }
        }
    }
    for part in it: parts
        invariant
            it.seq() == all,
            0 <= it.index() <= all.len(),
            received(all) <= isize::MAX,
            all.len() > 1 ==> len <= isize::MAX,
            first is None <==> it.index() == 0,
            rest is Some <==> it.index() > 1,
            first is None ==> head == Seq::<u8>::empty(),
            first is Some && rest is None ==> head == bytes_of(first->0),
            first is Some ==> all[0] == Ok::<Bytes, E>(first->0),
            rest is Some ==> head == buffered(rest->0),
            head.len() + received(all.subrange(it.index() as int, all.len() as int)) == received(
                all,
            ),
            collected(all) == preceded(
                head,
                collected(all.subrange(it.index() as int, all.len() as int)),
            ),
    {
        let ghost i = it.index() as int;
        let ghost tail = all.subrange(i, all.len() as int);
        proof {
            assert(tail[0] == all[i]);
            assert(tail.subrange(1, tail.len() as int) =~= all.subrange(i + 1, all.len() as int));
        }
        match part {
            Err(e) => {
                return Err(e);
            },
            Ok(body) => {
                let ghost before = head;
                proof {
                    head = head + bytes_of(body);
                    if let Ok(s) = collected(tail.subrange(1, tail.len() as int)) {
                        assert(before + (bytes_of(body) + s) =~= head + s);
                    }
                }
                match rest {
                    Some(mut buf) => {
                        append(&mut buf, &body);
                        rest = Some(buf);
                    },
                    None => match &first {
                        None => {
                            assert(head =~= bytes_of(body));
                            first = Some(body);
                        },
                        Some(one) => {
                            let mut buf = BytesMut::with_capacity(len);
                            append(&mut buf, one);
                            append(&mut buf, &body);
                            assert(buffered(buf) =~= head);
                            rest = Some(buf);
                        },
                    },
                }
            },
        }
    }
    assert(all.subrange(all.len() as int, all.len() as int).len() == 0);
    assert(collected(all) == preceded::<E>(head, Ok(Seq::empty())));
    assert(head + Seq::<u8>::empty() =~= head);
    match rest {
        Some(buf) => Ok(buf.freeze()),
        None => match first {
            Some(one) => Ok(one),
            None => Ok(Bytes::new()),
        },
    }
}

} // verus!
