//! Owner-side staging of a scattered write: chunks that are uploaded but not yet
//! visible to readers.
//!
//! A staged chunk is present but invisible until its upload is completed. Offering one
//! never waits: it is taken or refused at once, by a byte budget that is kept exact.

use bytes::Bytes;
use vstd::prelude::*;

use crate::blob::bytes_of;
use crate::clock::{Moment, Span};
use crate::scatter::StoreRefusal;

verus! {

/// What [`StagingArea::try_stage_at`] decided.
#[derive(Clone, Copy, Debug, PartialEq, Eq, Structural)]
pub enum StageOutcome {
    /// Reserved and held. The owner may now upload its part.
    Staged,
    /// Already held for this same upload: a retry, which is charged once only.
    AlreadyStaged,
    /// Refused at once.
    Refused(StoreRefusal),
}

/// One chunk held.
#[derive(Debug)]
struct Staged {
    key: String,
    body: Bytes,
    upload_id: String,
    staged_at: Moment,
}

/// A staged chunk as values.
pub struct StagedChunk {
    /// The chunk's key.
    pub key: Seq<char>,
    /// The upload that it belongs to.
    pub upload: Seq<char>,
    /// Its bytes.
    pub body: Seq<u8>,
    /// When it was staged.
    pub at: Moment,
}

impl View for Staged {
    type V = StagedChunk;

    closed spec fn view(&self) -> StagedChunk {
        StagedChunk {
            key: self.key@,
            upload: self.upload_id@,
            body: bytes_of(self.body),
            at: self.staged_at,
        }
    }
}

/// Chunks that an owner has uploaded and not yet made visible.
#[derive(Debug)]
pub struct StagingArea {
    pending: Vec<Staged>,
    staged_bytes: usize,
    staged_bytes_peak: usize,
    budget_bytes: usize,
    ttl: Span,
}

// ---- the model ----

/// The bytes of all chunks together.
pub open spec fn total_len(chunks: Seq<StagedChunk>) -> nat
    decreases chunks.len(),
{
    if chunks.len() == 0 {
        0
    } else {
        total_len(chunks.drop_last()) + chunks.last().body.len()
    }
}

/// No key is held twice.
pub open spec fn keys_distinct(chunks: Seq<StagedChunk>) -> bool {
    forall|i: int, j: int|
        0 <= i < j < chunks.len() ==> (#[trigger] chunks[i]).key != (#[trigger] chunks[j]).key
}

/// The upload that holds `key`, if any does.
pub open spec fn upload_of(chunks: Seq<StagedChunk>, key: Seq<char>) -> Option<Seq<char>>
    decreases chunks.len(),
{
    if chunks.len() == 0 {
        None
    } else if chunks.last().key == key {
        Some(chunks.last().upload)
    } else {
        upload_of(chunks.drop_last(), key)
    }
}

/// The answer to an offer of `len` bytes. A chunk that could never fit is told so; a
/// held key is a retry or a race; and what is left is the budget.
pub open spec fn stage_answer(
    chunks: Seq<StagedChunk>,
    budget: nat,
    key: Seq<char>,
    upload: Seq<char>,
    len: nat,
) -> StageOutcome {
    if len > budget {
        StageOutcome::Refused(
            StoreRefusal::OversizedForBudget { chunk_len: len as u64, budget: budget as u64 },
        )
    } else {
        match upload_of(chunks, key) {
            Some(holder) => if holder == upload {
                StageOutcome::AlreadyStaged
            } else {
                StageOutcome::Refused(StoreRefusal::RacingUpload)
            },
            None => if total_len(chunks) + len > budget {
                StageOutcome::Refused(
                    StoreRefusal::BudgetExhausted {
                        staged: total_len(chunks) as u64,
                        budget: budget as u64,
                    },
                )
            } else {
                StageOutcome::Staged
            },
        }
    }
}

/// Which chunks an operation takes out.
enum Pick<'a> {
    Key(&'a str),
    Upload(&'a str),
    Expired { now: Moment, ttl: Span },
}

/// Whether a chunk has been staged for at least `ttl`.
pub open spec fn expired(c: StagedChunk, now: Moment, ttl: Span) -> bool {
    let age = if now.nanos >= c.at.nanos {
        now.nanos - c.at.nanos
    } else {
        0
    };
    age >= ttl.nanos
}

/// Whether `pick` takes the chunk out.
spec fn picks(pick: Pick, c: StagedChunk) -> bool {
    match pick {
        Pick::Key(key) => c.key == key@,
        Pick::Upload(upload) => c.upload == upload@,
        Pick::Expired { now, ttl } => expired(c, now, ttl),
    }
}

/// The values of a list of held chunks.
spec fn values(held: Seq<Staged>) -> Seq<StagedChunk> {
    held.map_values(|s: Staged| s@)
}

/// What a filter takes and what it leaves is all there was, byte for byte.
proof fn lemma_parts_add_up(chunks: Seq<StagedChunk>, p: spec_fn(StagedChunk) -> bool)
    ensures
        total_len(chunks.filter(p)) + total_len(chunks.filter(|c: StagedChunk| !p(c)))
            == total_len(chunks),
        chunks.filter(p).len() + chunks.filter(|c: StagedChunk| !p(c)).len() == chunks.len(),
    decreases chunks.len(),
{
    reveal(Seq::filter);
    let q = |c: StagedChunk| !p(c);
    if chunks.len() > 0 {
        let front = chunks.drop_last();
        let last = chunks.last();
        lemma_parts_add_up(front, p);
        if p(last) {
            assert(chunks.filter(p).drop_last() =~= front.filter(p));
        } else {
            assert(chunks.filter(q).drop_last() =~= front.filter(q));
        }
    }
}

/// A filter keeps keys distinct.
proof fn lemma_filter_keeps_distinct(chunks: Seq<StagedChunk>, p: spec_fn(StagedChunk) -> bool)
    requires
        keys_distinct(chunks),
    ensures
        keys_distinct(chunks.filter(p)),
        forall|i: int|
            0 <= i < chunks.filter(p).len() ==> exists|j: int|
                0 <= j < chunks.len() && (#[trigger] chunks[j]) == (#[trigger] chunks.filter(p)[i]),
    decreases chunks.len(),
{
    reveal(Seq::filter);
    if chunks.len() > 0 {
        let front = chunks.drop_last();
        let last = chunks.last();
        assert forall|i: int, j: int| 0 <= i < j < front.len() implies (#[trigger] front[i]).key
            != (#[trigger] front[j]).key by {
            assert(front[i] == chunks[i] && front[j] == chunks[j]);
        }
        lemma_filter_keeps_distinct(front, p);
        let kept = front.filter(p);
        let all = chunks.filter(p);
        assert forall|i: int| 0 <= i < all.len() implies exists|j: int|
            0 <= j < chunks.len() && (#[trigger] chunks[j]) == (#[trigger] all[i]) by {
            if i < kept.len() {
                assert(all[i] == kept[i]);
                let j = choose|j: int|
                    0 <= j < front.len() && (#[trigger] front[j]) == kept[i];
                assert(chunks[j] == all[i]);
            } else {
                assert(chunks[chunks.len() - 1] == all[i]);
            }
        }
        assert forall|i: int, j: int| 0 <= i < j < all.len() implies (#[trigger] all[i]).key != (
        #[trigger] all[j]).key by {
            assert(all[i] == kept[i]);
            let a = choose|a: int| 0 <= a < front.len() && (#[trigger] front[a]) == kept[i];
            if j < kept.len() {
                assert(all[j] == kept[j]);
            } else {
                assert(chunks[a].key != chunks[chunks.len() - 1].key);
            }
        }
    }
}

/// Where a key stands among the held chunks decides whose it is.
proof fn lemma_upload_of(chunks: Seq<StagedChunk>, key: Seq<char>)
    requires
        keys_distinct(chunks),
    ensures
        forall|i: int|
            0 <= i < chunks.len() && (#[trigger] chunks[i]).key == key ==> upload_of(chunks, key)
                == Some(chunks[i].upload),
        (forall|i: int| 0 <= i < chunks.len() ==> (#[trigger] chunks[i]).key != key) ==> upload_of(
            chunks,
            key,
        ) is None,
    decreases chunks.len(),
{
    if chunks.len() > 0 {
        let front = chunks.drop_last();
        assert forall|i: int, j: int| 0 <= i < j < front.len() implies (#[trigger] front[i]).key
            != (#[trigger] front[j]).key by {
            assert(front[i] == chunks[i] && front[j] == chunks[j]);
        }
        lemma_upload_of(front, key);
        assert forall|i: int| 0 <= i < chunks.len() && (#[trigger] chunks[i]).key
            == key implies upload_of(chunks, key) == Some(chunks[i].upload) by {
            if i < front.len() {
                assert(front[i] == chunks[i]);
                assert(chunks[i].key != chunks[chunks.len() - 1].key);
            }
        }
        if forall|i: int| 0 <= i < chunks.len() ==> (#[trigger] chunks[i]).key != key {
            assert forall|i: int| 0 <= i < front.len() implies (#[trigger] front[i]).key != key by {
                assert(front[i] == chunks[i]);
            }
            assert(chunks[chunks.len() - 1].key != key);
        }
    }
}

impl View for StagingArea {
    type V = Seq<StagedChunk>;

    /// The chunks held, in the order in which they were staged.
    closed spec fn view(&self) -> Seq<StagedChunk> {
        values(self.pending@)
    }
}

impl StagingArea {
    /// The ceiling on staged bytes.
    pub closed spec fn budget(&self) -> nat {
        self.budget_bytes as nat
    }

    /// How long a chunk may sit.
    pub closed spec fn lifetime(&self) -> Span {
        self.ttl
    }

    /// The most bytes ever held at once.
    pub closed spec fn peak(&self) -> nat {
        self.staged_bytes_peak as nat
    }

    /// The byte total is that of the chunks held, it is within the budget, no key is
    /// held twice, and the peak is no lower than the total.
    pub closed spec fn wf(&self) -> bool {
        &&& self.staged_bytes == total_len(self@)
        &&& keys_distinct(self@)
        &&& self.staged_bytes <= self.staged_bytes_peak <= self.budget_bytes
    }

    /// What holds of every staging area: the budget is never exceeded, no key is held
    /// twice, and the peak lies between what is held and the budget.
    pub proof fn the_budget_is_never_exceeded(&self)
        requires
            self.wf(),
        ensures
            total_len(self@) <= self.peak() <= self.budget(),
            keys_distinct(self@),
    {
    }

    /// An empty area with that budget and lifetime.
    pub fn new(budget_bytes: usize, ttl: Span) -> (a: Self)
        ensures
            a.wf(),
            a@ == Seq::<StagedChunk>::empty(),
            a.budget() == budget_bytes,
            a.lifetime() == ttl,
            a.peak() == 0,
    {
        let a = StagingArea {
            pending: Vec::new(),
            staged_bytes: 0,
            staged_bytes_peak: 0,
            budget_bytes,
            ttl,
        };
        assert(a@ =~= Seq::<StagedChunk>::empty());
        a
    }

    /// Offer a chunk for staging, stamped `now`. Never waits.
    pub fn try_stage_at(&mut self, chunk_key: &str, upload_id: &str, body: Bytes, now: Moment) -> (r:
        StageOutcome)
        requires
            old(self).wf(),
        ensures
            final(self).wf(),
            final(self).budget() == old(self).budget(),
            final(self).lifetime() == old(self).lifetime(),
            r == stage_answer(
                old(self)@,
                old(self).budget(),
                chunk_key@,
                upload_id@,
                bytes_of(body).len(),
            ),
            r is Staged ==> final(self)@ == old(self)@.push(
                StagedChunk {
                    key: chunk_key@,
                    upload: upload_id@,
                    body: bytes_of(body),
                    at: now,
                },
            ),
            !(r is Staged) ==> final(self)@ == old(self)@,
            final(self).peak() == if total_len(final(self)@) > old(self).peak() {
                total_len(final(self)@)
            } else {
                old(self).peak()
            },
    {
        let chunk_len: usize = body.len();
        let budget: u64 = self.budget_bytes as u64;
        if chunk_len > self.budget_bytes {
            return StageOutcome::Refused(
                StoreRefusal::OversizedForBudget { chunk_len: chunk_len as u64, budget },
            );
        }
        let mut i: usize = 0;
        while i < self.pending.len()
            invariant
                self.wf(),
                *self == *old(self),
                i <= self.pending@.len(),
                chunk_len == bytes_of(body).len(),
                chunk_len <= self.budget_bytes,
                forall|j: int| 0 <= j < i ==> (#[trigger] self@[j]).key != chunk_key@,
            decreases self.pending@.len() - i,
        {
            let held = &self.pending[i];
            assert(self@[i as int] == held@);
            if held.key.as_str().eq(chunk_key) {
                proof {
                    lemma_upload_of(self@, chunk_key@);
                }
                return if held.upload_id.as_str().eq(upload_id) {
                    StageOutcome::AlreadyStaged
                } else {
                    StageOutcome::Refused(StoreRefusal::RacingUpload)
                };
            }
            i += 1;
        }
        proof {
            lemma_upload_of(self@, chunk_key@);
        }
        if chunk_len > self.budget_bytes - self.staged_bytes {
            return StageOutcome::Refused(
                StoreRefusal::BudgetExhausted { staged: self.staged_bytes as u64, budget },
            );
        }
        let ghost before = self@;
        self.staged_bytes += chunk_len;
        if self.staged_bytes > self.staged_bytes_peak {
            self.staged_bytes_peak = self.staged_bytes;
        }
        let entry = Staged {
            key: chunk_key.to_owned(),
            body,
            upload_id: upload_id.to_owned(),
            staged_at: now,
        };
        let ghost added = entry@;
        self.pending.push(entry);
        proof {
            assert(self@ =~= before.push(added));
            assert(self@.drop_last() =~= before);
            assert forall|a: int, b: int| 0 <= a < b < self@.len() implies (#[trigger] self@[a]).key
                != (#[trigger] self@[b]).key by {
                assert(self@[a] == before[a]);
                if b < before.len() {
                    assert(self@[b] == before[b]);
                }
            }
        }
        StageOutcome::Staged
    }

    /// Take out the chunks that `pick` picks, and free their bytes. The single way out,
    /// so that no chunk is freed twice.
    fn take(&mut self, pick: &Pick<'_>) -> (taken: Vec<Staged>)
        requires
            old(self).wf(),
        ensures
            final(self).wf(),
            final(self).budget() == old(self).budget(),
            final(self).lifetime() == old(self).lifetime(),
            final(self).peak() == old(self).peak(),
            values(taken@) == old(self)@.filter(|c: StagedChunk| picks(*pick, c)),
            final(self)@ == old(self)@.filter(|c: StagedChunk| !picks(*pick, c)),
    {
        let ghost all = self.pending@;
        let ghost chunks = self@;
        let ghost p = |c: StagedChunk| picks(*pick, c);
        let ghost q = |c: StagedChunk| !picks(*pick, c);
        let mut held: Vec<Staged> = Vec::new();
        std::mem::swap(&mut held, &mut self.pending);
        let mut taken: Vec<Staged> = Vec::new();
        let mut freed: usize = 0;
        assert(values(all).take(0).filter(p) =~= Seq::empty()) by {
            reveal(Seq::filter);
        }
        assert(values(all).take(0).filter(q) =~= Seq::empty()) by {
            reveal(Seq::filter);
        }
        assert(values(taken@) =~= Seq::empty());
        assert(values(self.pending@) =~= Seq::empty());
        proof {
            lemma_parts_add_up(chunks, p);
            assert(chunks.filter(|c: StagedChunk| !p(c)) =~= chunks.filter(q)) by {
                assert((|c: StagedChunk| !p(c)) =~= q);
            }
        }
        for s in it: held
            invariant
                it.seq() == all,
                chunks == values(all),
                p == (|c: StagedChunk| picks(*pick, c)),
                q == (|c: StagedChunk| !picks(*pick, c)),
                values(taken@) == chunks.take(it.index()).filter(p),
                values(self.pending@) == chunks.take(it.index()).filter(q),
                freed == total_len(chunks.take(it.index()).filter(p)),
                total_len(chunks) <= usize::MAX,
                self.staged_bytes == old(self).staged_bytes,
                self.staged_bytes_peak == old(self).staged_bytes_peak,
                self.budget_bytes == old(self).budget_bytes,
                self.ttl == old(self).ttl,
        {
            let ghost k = it.index();
            let ghost front = chunks.take(k);
            let ghost next = chunks.take(k + 1);
            let ghost kept = self.pending@;
            let ghost out = taken@;
            proof {
                reveal(Seq::filter);
                assert(next.drop_last() =~= front);
                assert(next.last() == s@);
                lemma_parts_add_up(next, p);
                lemma_prefix_is_no_longer(chunks, k + 1);
            }
            let gone: bool = match pick {
                Pick::Key(key) => s.key.as_str().eq(*key),
                Pick::Upload(upload) => s.upload_id.as_str().eq(*upload),
                Pick::Expired { now, ttl } => now.since(s.staged_at).nanos >= ttl.nanos,
            };
            assert(gone == p(s@));
            if gone {
                proof {
                    assert(next.filter(p) =~= front.filter(p).push(s@));
                    assert(next.filter(p).drop_last() =~= front.filter(p));
                    assert(values(out.push(s)) =~= values(out).push(s@));
                }
                freed += s.body.len();
                taken.push(s);
            } else {
                proof {
                    assert(next.filter(q) =~= front.filter(q).push(s@));
                    assert(values(kept.push(s)) =~= values(kept).push(s@));
                }
                self.pending.push(s);
            }
        }
        proof {
            assert(chunks.take(chunks.len() as int) =~= chunks);
            lemma_filter_keeps_distinct(chunks, q);
        }
        self.staged_bytes -= freed;
        taken
    }

    /// Release one chunk without committing it: its upload failed. Tells whether it was
    /// held.
    pub fn release(&mut self, chunk_key: &str) -> (r: bool)
        requires
            old(self).wf(),
        ensures
            final(self).wf(),
            final(self).budget() == old(self).budget(),
            final(self).lifetime() == old(self).lifetime(),
            final(self).peak() == old(self).peak(),
            r == (upload_of(old(self)@, chunk_key@) is Some),
            final(self)@ == old(self)@.filter(|c: StagedChunk| c.key != chunk_key@),
    {
        let pick = Pick::Key(chunk_key);
        let ghost before = self@;
        let taken = self.take(&pick);
        proof {
            let p = |c: StagedChunk| picks(pick, c);
            assert((|c: StagedChunk| !picks(pick, c)) =~= (|c: StagedChunk| c.key != chunk_key@));
            assert(values(taken@).len() == taken@.len());
            lemma_some_picked(before, p);
            lemma_upload_of(before, chunk_key@);
        }
        taken.len() > 0
    }

    /// Hand over every chunk of an upload, with its key, and free the budget that it
    /// held.
    pub fn commit(&mut self, upload_id: &str) -> (r: Vec<(String, Bytes)>)
        requires
            old(self).wf(),
        ensures
            final(self).wf(),
            final(self).budget() == old(self).budget(),
            final(self).lifetime() == old(self).lifetime(),
            final(self).peak() == old(self).peak(),
            final(self)@ == old(self)@.filter(|c: StagedChunk| c.upload != upload_id@),
            r@.len() == old(self)@.filter(|c: StagedChunk| c.upload == upload_id@).len(),
            forall|i: int|
                0 <= i < r@.len() ==> {
                    let c = old(self)@.filter(|c: StagedChunk| c.upload == upload_id@)[i];
                    (#[trigger] r@[i]).0@ == c.key && bytes_of(r@[i].1) == c.body
                },
    {
        let pick = Pick::Upload(upload_id);
        let ghost before = self@;
        let taken = self.take(&pick);
        proof {
            assert((|c: StagedChunk| picks(pick, c)) =~= (|c: StagedChunk| c.upload
                == upload_id@));
            assert((|c: StagedChunk| !picks(pick, c)) =~= (|c: StagedChunk| c.upload
                != upload_id@));
        }
        let ghost want = before.filter(|c: StagedChunk| c.upload == upload_id@);
        let mut out: Vec<(String, Bytes)> = Vec::new();
        let ghost all = taken@;
        for s in it: taken
            invariant
                it.seq() == all,
                values(all) == want,
                out@.len() == it.index(),
                forall|i: int|
                    0 <= i < out@.len() ==> (#[trigger] out@[i]).0@ == want[i].key && bytes_of(
                        out@[i].1,
                    ) == want[i].body,
        {
            proof {
                assert(values(all)[it.index() as int] == s@);
            }
            out.push((s.key, s.body));
        }
        assert(values(all).len() == all.len());
        out
    }

    /// Drop every chunk of an upload: it was aborted. Tells how many went.
    pub fn discard(&mut self, upload_id: &str) -> (n: usize)
        requires
            old(self).wf(),
        ensures
            final(self).wf(),
            final(self).budget() == old(self).budget(),
            final(self).lifetime() == old(self).lifetime(),
            final(self).peak() == old(self).peak(),
            final(self)@ == old(self)@.filter(|c: StagedChunk| c.upload != upload_id@),
            n == old(self)@.filter(|c: StagedChunk| c.upload == upload_id@).len(),
    {
        let pick = Pick::Upload(upload_id);
        let taken = self.take(&pick);
        proof {
            assert((|c: StagedChunk| picks(pick, c)) =~= (|c: StagedChunk| c.upload
                == upload_id@));
            assert((|c: StagedChunk| !picks(pick, c)) =~= (|c: StagedChunk| c.upload
                != upload_id@));
            assert(values(taken@).len() == taken@.len());
        }
        taken.len()
    }

    /// Drop the chunks that have been staged for the lifetime or longer, and return
    /// their keys.
    pub fn reap_at(&mut self, now: Moment) -> (r: Vec<String>)
        requires
            old(self).wf(),
        ensures
            final(self).wf(),
            final(self).budget() == old(self).budget(),
            final(self).lifetime() == old(self).lifetime(),
            final(self).peak() == old(self).peak(),
            final(self)@ == old(self)@.filter(
                |c: StagedChunk| !expired(c, now, old(self).lifetime()),
            ),
            r@.len() == old(self)@.filter(
                |c: StagedChunk| expired(c, now, old(self).lifetime()),
            ).len(),
            forall|i: int|
                0 <= i < r@.len() ==> (#[trigger] r@[i])@ == old(self)@.filter(
                    |c: StagedChunk| expired(c, now, old(self).lifetime()),
                )[i].key,
    {
        let pick = Pick::Expired { now, ttl: self.ttl };
        let ghost before = self@;
        let ghost life = self.lifetime();
        let taken = self.take(&pick);
        proof {
            assert((|c: StagedChunk| picks(pick, c)) =~= (|c: StagedChunk| expired(c, now, life)));
            assert((|c: StagedChunk| !picks(pick, c)) =~= (|c: StagedChunk| !expired(
                c,
                now,
                life,
            )));
        }
        let ghost want = before.filter(|c: StagedChunk| expired(c, now, life));
        let mut out: Vec<String> = Vec::new();
        let ghost all = taken@;
        for s in it: taken
            invariant
                it.seq() == all,
                values(all) == want,
                out@.len() == it.index(),
                forall|i: int| 0 <= i < out@.len() ==> (#[trigger] out@[i])@ == want[i].key,
        {
            proof {
                assert(values(all)[it.index() as int] == s@);
            }
            out.push(s.key);
        }
        assert(values(all).len() == all.len());
        out
    }

    /// Bytes staged now.
    pub fn staged_bytes(&self) -> (n: usize)
        requires
            self.wf(),
        ensures
            n == total_len(self@),
    {
        self.staged_bytes
    }

    /// The most bytes ever staged at once.
    pub fn staged_bytes_peak(&self) -> (n: usize)
        ensures
            n == self.peak(),
    {
        self.staged_bytes_peak
    }

    /// Chunks staged now.
    pub fn pending_count(&self) -> (n: usize)
        ensures
            n == self@.len(),
    {
        self.pending.len()
    }

    /// The ceiling on staged bytes.
    pub fn budget_bytes(&self) -> (n: usize)
        ensures
            n == self.budget(),
    {
        self.budget_bytes
    }
}

/// The first chunks of a list hold no more bytes than all of them.
proof fn lemma_prefix_is_no_longer(chunks: Seq<StagedChunk>, n: int)
    requires
        0 <= n <= chunks.len(),
    ensures
        total_len(chunks.take(n)) <= total_len(chunks),
    decreases chunks.len() - n,
{
    if n < chunks.len() {
        lemma_prefix_is_no_longer(chunks, n + 1);
        assert(chunks.take(n + 1).drop_last() =~= chunks.take(n));
    } else {
        assert(chunks.take(n) =~= chunks);
    }
}

/// A filter takes something exactly where something meets its test.
proof fn lemma_some_picked(chunks: Seq<StagedChunk>, p: spec_fn(StagedChunk) -> bool)
    ensures
        chunks.filter(p).len() > 0 <==> exists|i: int|
            0 <= i < chunks.len() && p(#[trigger] chunks[i]),
    decreases chunks.len(),
{
    reveal(Seq::filter);
    if chunks.len() > 0 {
        let front = chunks.drop_last();
        lemma_some_picked(front, p);
        if p(chunks.last()) {
            assert(p(chunks[chunks.len() - 1]));
        }
        if exists|i: int| 0 <= i < front.len() && p(#[trigger] front[i]) {
            let i = choose|i: int| 0 <= i < front.len() && p(#[trigger] front[i]);
            assert(p(chunks[i]));
        }
        if exists|i: int| 0 <= i < chunks.len() && p(#[trigger] chunks[i]) {
            let i = choose|i: int| 0 <= i < chunks.len() && p(#[trigger] chunks[i]);
            if i < front.len() {
                assert(p(front[i]));
            }
        }
    }
}

/// A chunk that was staged is known: the same upload's retry is charged nothing, and
/// any other upload of its key is refused as a race.
pub proof fn a_staged_key_answers_retries_and_races(
    chunks: Seq<StagedChunk>,
    added: StagedChunk,
    budget: nat,
    upload: Seq<char>,
    len: nat,
)
    requires
        len <= budget,
    ensures
        stage_answer(chunks.push(added), budget, added.key, added.upload, len)
            is AlreadyStaged,
        upload != added.upload ==> stage_answer(
            chunks.push(added),
            budget,
            added.key,
            upload,
            len,
        ) == StageOutcome::Refused(StoreRefusal::RacingUpload),
{
    assert(chunks.push(added).last() == added);
}

/// A chunk that is too long for the whole budget is refused for good, and any other
/// refusal clears: it is a full budget or a race.
pub proof fn only_a_chunk_beyond_the_budget_is_refused_for_good(
    chunks: Seq<StagedChunk>,
    budget: nat,
    key: Seq<char>,
    upload: Seq<char>,
    len: nat,
)
    ensures
        stage_answer(chunks, budget, key, upload, len) matches StageOutcome::Refused(refusal) ==> (
        refusal.transient() <==> len <= budget),
{
}

/// An offer is taken exactly where its key is held by nobody and its bytes fit beside those that
/// are staged; a key that is held answers by whose it is, as long as the chunk could ever fit;
/// and a refusal tells how full the area was, or how large the chunk is.
pub proof fn an_offer_is_taken_where_it_fits(
    chunks: Seq<StagedChunk>,
    budget: nat,
    key: Seq<char>,
    upload: Seq<char>,
    len: nat,
)
    requires
        keys_distinct(chunks),
        budget <= u64::MAX,
        len <= u64::MAX,
        total_len(chunks) <= budget,
    ensures
        ({
            let answer = stage_answer(chunks, budget, key, upload, len);
            let held = exists|i: int| 0 <= i < chunks.len() && (#[trigger] chunks[i]).key == key;
            let own = exists|i: int|
                0 <= i < chunks.len() && (#[trigger] chunks[i]).key == key && chunks[i].upload
                    == upload;
            &&& answer is Staged <==> !held && total_len(chunks) + len <= budget
            &&& answer is AlreadyStaged <==> own && len <= budget
            &&& answer == StageOutcome::Refused(StoreRefusal::RacingUpload) <==> held && !own && len
                <= budget
            &&& len > budget ==> answer == StageOutcome::Refused(
                StoreRefusal::OversizedForBudget { chunk_len: len as u64, budget: budget as u64 },
            )
            &&& !held && len <= budget < total_len(chunks) + len ==> answer
                == StageOutcome::Refused(
                StoreRefusal::BudgetExhausted {
                    staged: total_len(chunks) as u64,
                    budget: budget as u64,
                },
            )
        }),
{
    lemma_upload_of(chunks, key);
}

/// The bytes of chunks that are put together are those of the one and of the other; a single
/// chunk has its own.
pub proof fn bytes_add_up(front: Seq<StagedChunk>, back: Seq<StagedChunk>, one: StagedChunk)
    ensures
        total_len(front + back) == total_len(front) + total_len(back),
        total_len(seq![one]) == one.body.len(),
        total_len(front.push(one)) == total_len(front) + one.body.len(),
    decreases back.len(),
{
    assert(seq![one].drop_last() =~= Seq::empty());
    assert(total_len(Seq::<StagedChunk>::empty()) == 0);
    assert(front.push(one).drop_last() =~= front);
    if back.len() == 0 {
        assert(front + back =~= front);
    } else {
        bytes_add_up(front, back.drop_last(), one);
        assert((front + back).drop_last() =~= front + back.drop_last());
    }
}

/// A chunk outlives every reaping before its lifetime is over, and none from then on: staged at
/// some time, it is expired at each later time that is a lifetime or more away, and at no other.
/// So expiry, once reached, lasts.
pub proof fn a_chunk_expires_after_its_lifetime(
    c: StagedChunk,
    now: Moment,
    later: Moment,
    ttl: Span,
)
    requires
        ttl.nanos > 0,
    ensures
        expired(c, now, ttl) <==> now.nanos >= c.at.nanos + ttl.nanos,
        expired(c, now, ttl) && later.nanos >= now.nanos ==> expired(c, later, ttl),
{
}

/// A reaping drops the chunks that were staged a lifetime ago or longer and holds all others,
/// as they were and in their order; and what it drops and what it holds is all there was.
pub proof fn a_reaping_drops_what_outlived_its_lifetime(
    chunks: Seq<StagedChunk>,
    now: Moment,
    ttl: Span,
    i: int,
)
    requires
        ttl.nanos > 0,
        0 <= i < chunks.len(),
        keys_distinct(chunks),
    ensures
        ({
            let held = chunks.filter(|c: StagedChunk| !expired(c, now, ttl));
            let gone = chunks.filter(|c: StagedChunk| expired(c, now, ttl));
            &&& now.nanos >= chunks[i].at.nanos + ttl.nanos ==> gone.contains(chunks[i])
                && upload_of(held, chunks[i].key) is None
            &&& now.nanos < chunks[i].at.nanos + ttl.nanos ==> held.contains(chunks[i])
                && upload_of(held, chunks[i].key) == Some(chunks[i].upload)
            &&& total_len(held) + total_len(gone) == total_len(chunks)
            &&& held.len() + gone.len() == chunks.len()
        }),
{
    let old = |c: StagedChunk| expired(c, now, ttl);
    let young = |c: StagedChunk| !expired(c, now, ttl);
    let held = chunks.filter(young);
    lemma_parts_add_up(chunks, old);
    assert((|c: StagedChunk| !old(c)) =~= young);
    a_chunk_expires_after_its_lifetime(chunks[i], now, now, ttl);
    lemma_filter_keeps_distinct(chunks, young);
    lemma_upload_of(held, chunks[i].key);
    if old(chunks[i]) {
        chunks.lemma_filter_contains(old, i);
        assert forall|j: int| 0 <= j < held.len() implies (#[trigger] held[j]).key
            != chunks[i].key by {
            let k = choose|k: int| 0 <= k < chunks.len() && (#[trigger] chunks[k]) == held[j];
            chunks.lemma_filter_pred(young, j);
            if chunks[k].key == chunks[i].key {
                assert(k == i);
            }
        }
    } else {
        chunks.lemma_filter_contains(young, i);
        let j = choose|j: int| 0 <= j < held.len() && held[j] == chunks[i];
        assert(held[j].key == chunks[i].key);
    }
}

/// Once released, a key is free: it is held no more, so that a second release finds
/// nothing and another upload may stage it.
pub proof fn a_released_key_is_free(chunks: Seq<StagedChunk>, key: Seq<char>)
    ensures
        upload_of(chunks.filter(|c: StagedChunk| c.key != key), key) is None,
    decreases chunks.len(),
{
    reveal(Seq::filter);
    let p = |c: StagedChunk| c.key != key;
    if chunks.len() > 0 {
        a_released_key_is_free(chunks.drop_last(), key);
        if p(chunks.last()) {
            assert(chunks.filter(p).drop_last() =~= chunks.drop_last().filter(p));
        }
    }
}

/// Committing or discarding an upload frees exactly the bytes that it held, and the
/// chunks of every other upload stay as they are.
pub proof fn an_upload_frees_its_own_bytes(
    chunks: Seq<StagedChunk>,
    upload: Seq<char>,
    other: Seq<char>,
)
    requires
        other != upload,
    ensures
        total_len(chunks.filter(|c: StagedChunk| c.upload != upload)) == total_len(chunks)
            - total_len(chunks.filter(|c: StagedChunk| c.upload == upload)),
        chunks.filter(|c: StagedChunk| c.upload != upload).filter(
            |c: StagedChunk| c.upload == other,
        ) == chunks.filter(|c: StagedChunk| c.upload == other),
{
    let p = |c: StagedChunk| c.upload == upload;
    lemma_parts_add_up(chunks, p);
    assert((|c: StagedChunk| !p(c)) =~= (|c: StagedChunk| c.upload != upload));
    lemma_other_upload_stays(chunks, upload, other);
}

/// Taking one upload out leaves another's chunks.
proof fn lemma_other_upload_stays(chunks: Seq<StagedChunk>, upload: Seq<char>, other: Seq<char>)
    requires
        other != upload,
    ensures
        chunks.filter(|c: StagedChunk| c.upload != upload).filter(
            |c: StagedChunk| c.upload == other,
        ) == chunks.filter(|c: StagedChunk| c.upload == other),
    decreases chunks.len(),
{
    reveal(Seq::filter);
    let keep = |c: StagedChunk| c.upload != upload;
    let want = |c: StagedChunk| c.upload == other;
    if chunks.len() > 0 {
        lemma_other_upload_stays(chunks.drop_last(), upload, other);
        if keep(chunks.last()) {
            assert(chunks.filter(keep).drop_last() =~= chunks.drop_last().filter(keep));
        }
    }
}

} // verus!
