//! The serving side of the peer protocol: what a peer that asks for a chunk, offers one,
//! or announces one is answered.
//!
//! A chunk is served whole. A miss is read through to the backend only where this node is
//! a home of the chunk and the request allows filling; anything else is the requester's
//! own read.

use bytes::{Bytes, BytesMut};
use vstd::prelude::*;

use crate::blob::{append, buffered, bytes_of, slice_of};
use crate::chunk::{
    chunk_key_parts, content_range_total, object_key_parts, parse_chunk_key, range_total,
    ChunkConfig,
};
use crate::cluster::{at_home, is_home, names, Holder, NodeId, Tier};
use crate::fill::{FillGuard, FillRegistry, Phase};
use crate::place::{TokenDecline, TokenWrite};
use crate::scatter::StoreRefusal;
use crate::staging::{StageOutcome, StagedChunk, StagingArea};
use crate::text::{
    chars_of, copy_opt, decimal, opt_text, push_decimal, push_text, split_once, string_of, strip,
    stripped,
};

verus! {

/// How many bytes of a body one frame carries at most.
pub const FRAME_SIZE: usize = 1048576;

/// How many chunk bodies are held at once for serving them.
pub const HOLDER_SERVE_SLOTS: usize = 256;

/// The status codes of a refused call.
#[derive(Clone, Copy, Debug, PartialEq, Eq, Structural)]
pub enum PeerCode {
    /// The request does not make sense.
    InvalidArgument,
    /// What was asked for is not here.
    NotFound,
    /// Something behind this node failed for now.
    Unavailable,
    /// Something behind this node broke its contract.
    Internal,
}

/// A refused call.
#[derive(Debug)]
pub struct PeerStatus {
    /// The status code.
    pub code: PeerCode,
    /// The message that goes with it.
    pub message: String,
}

fn status(code: PeerCode, message: &str) -> (s: PeerStatus)
    ensures
        s.code == code,
        s.message@ == message@,
{
    PeerStatus { code, message: message.to_owned() }
}

/// What the first frame of an answer says of the chunk.
#[derive(Debug)]
pub struct BlobMeta {
    /// The length of the body.
    pub total_len: u64,
    /// The object's entity tag, without quotes.
    pub e_tag: Option<String>,
    /// The object's length.
    pub object_len: u64,
    /// Where in the object the body begins.
    pub body_start: u64,
    /// The object's content type.
    pub content_type: Option<String>,
    /// When the object was last modified.
    pub last_modified_epoch_secs: Option<i64>,
    /// Whether the bytes were written into memory already, so that no body follows.
    pub served_via_rdma: bool,
    /// The checksum of the bytes written, where one is owed.
    pub written_crc32: Option<u32>,
}

/// One frame of an answer.
#[derive(Debug)]
pub struct BlobChunk {
    /// Its bytes.
    pub data: Bytes,
    /// What the first frame says of the chunk.
    pub meta: Option<BlobMeta>,
}

// ---- asking for a chunk ----

/// What a request for a chunk is answered with.
#[derive(Debug)]
pub enum FetchStep {
    /// The cached chunk.
    Serve,
    /// The chunk, as it is read from the backend and filled here.
    ReadThrough,
    /// A refusal.
    Refuse(PeerStatus),
}

/// What a request for a chunk is answered with. A miss is read through where this node is
/// a home of the chunk and filling is allowed.
pub fn fetch_blob(cached: bool, no_fill: bool, homes: &[NodeId], local_node: &str) -> (r: FetchStep)
    ensures
        cached ==> r is Serve,
        !cached && !no_fill && at_home(names(homes@), local_node@) ==> r is ReadThrough,
        !cached && (no_fill || !at_home(names(homes@), local_node@)) ==> (r matches
            FetchStep::Refuse(s) && s.code is NotFound && s.message@ == "blob not cached"@),
{
    if cached {
        return FetchStep::Serve;
    }
    if no_fill || !is_home(homes, local_node) {
        return FetchStep::Refuse(status(PeerCode::NotFound, "blob not cached"));
    }
    FetchStep::ReadThrough
}

/// How many fills are read through at once: as many as set, and one at least.
pub fn readthrough_permits(fill_parallelism: usize) -> (n: usize)
    ensures
        n == if fill_parallelism == 0 {
            1
        } else {
            fill_parallelism
        },
{
    if fill_parallelism == 0 {
        1
    } else {
        fill_parallelism
    }
}

// ---- writing instead of streaming ----

/// What a one-sided write did for an answer.
#[derive(Clone, Copy, Debug, PartialEq, Eq, Structural)]
pub struct WriteServe {
    /// Whether the bytes landed. Where not, the body is streamed.
    pub served: bool,
    /// The checksum of the bytes written, where one is owed.
    pub crc32: Option<u32>,
}

impl WriteServe {
    /// Nothing was written.
    pub open spec fn nothing() -> WriteServe {
        WriteServe { served: false, crc32: None }
    }

    /// Nothing was written: the answer of every fallback.
    pub fn streamed() -> (r: Self)
        ensures
            r == WriteServe::nothing(),
    {
        WriteServe { served: false, crc32: None }
    }
}

/// Where an answer's bytes go.
#[derive(Clone, Copy, Debug, PartialEq, Eq, Structural)]
pub enum WriteRoute {
    /// Into the stream.
    Stream,
    /// Into the requester's memory.
    Buffer,
    /// Into the reading client's own memory.
    Token,
}

/// Where an answer's bytes go. A request that names both destinations is ambiguous, and
/// is streamed to.
pub fn try_serve_via_write(has_plane: bool, buffer: bool, token: bool, requester: bool) -> (r:
    WriteRoute)
    ensures
        r == if !has_plane || (buffer && token) {
            WriteRoute::Stream
        } else if token {
            WriteRoute::Token
        } else if buffer && requester {
            WriteRoute::Buffer
        } else {
            WriteRoute::Stream
        },
{
    if !has_plane || (buffer && token) {
        WriteRoute::Stream
    } else if token {
        WriteRoute::Token
    } else if buffer && requester {
        WriteRoute::Buffer
    } else {
        WriteRoute::Stream
    }
}

/// What a write into the requester's memory did: `None` where it failed. The requester
/// takes the checksum itself.
pub fn buffer_written(served: Option<bool>) -> (r: WriteServe)
    ensures
        r == (WriteServe { served: served == Some(true), crc32: None }),
{
    match served {
        Some(s) => WriteServe { served: s, crc32: None },
        None => WriteServe::streamed(),
    }
}

/// What writing into the client's memory does next.
#[derive(Clone, Copy, Debug, PartialEq, Eq, Structural)]
pub enum ClientWriteStep {
    /// Write the body, and take its checksum alongside where the flag says so.
    Write {
        /// Whether a checksum is wanted.
        digest: bool,
    },
    /// The answer is settled; a decline is counted by its reason.
    Done(WriteServe, Option<TokenDecline>),
}

/// The step of writing a chunk into the reading client's memory. Whatever goes wrong, the
/// body is streamed: a write whose checksum is owed and missing counts as not made.
pub open spec fn client_write(
    has_plane: bool,
    token_usable: bool,
    checksum: bool,
    write: Option<TokenWrite>,
    crc32: Option<u32>,
) -> ClientWriteStep {
    if !has_plane || !token_usable {
        ClientWriteStep::Done(WriteServe::nothing(), None)
    } else {
        match write {
            None => ClientWriteStep::Write { digest: checksum },
            Some(TokenWrite::Failed) => ClientWriteStep::Done(WriteServe::nothing(), None),
            Some(TokenWrite::Declined(d)) => ClientWriteStep::Done(
                WriteServe::nothing(),
                Some(d),
            ),
            Some(TokenWrite::Written) => ClientWriteStep::Done(
                if !checksum {
                    WriteServe { served: true, crc32: None }
                } else if crc32 is Some {
                    WriteServe { served: true, crc32 }
                } else {
                    WriteServe::nothing()
                },
                None,
            ),
        }
    }
}

/// The step of writing a chunk into the reading client's memory. `write` is `None` while
/// it was not made, and `crc32` is `None` where its checksum could not be taken. Whatever
/// goes wrong, the body is streamed: a write whose checksum is owed and missing counts as
/// not made.
pub fn write_into_client_token(
    has_plane: bool,
    token_usable: bool,
    checksum: bool,
    write: Option<TokenWrite>,
    crc32: Option<u32>,
) -> (r: ClientWriteStep)
    ensures
        r == client_write(has_plane, token_usable, checksum, write, crc32),
{
    if !has_plane || !token_usable {
        return ClientWriteStep::Done(WriteServe::streamed(), None);
    }
    match write {
        None => ClientWriteStep::Write { digest: checksum },
        Some(TokenWrite::Failed) => ClientWriteStep::Done(WriteServe::streamed(), None),
        Some(TokenWrite::Declined(d)) => ClientWriteStep::Done(WriteServe::streamed(), Some(d)),
        Some(TokenWrite::Written) => {
            if !checksum {
                return ClientWriteStep::Done(WriteServe { served: true, crc32: None }, None);
            }
            match crc32 {
                Some(crc) => ClientWriteStep::Done(
                    WriteServe { served: true, crc32: Some(crc) },
                    None,
                ),
                None => ClientWriteStep::Done(WriteServe::streamed(), None),
            }
        },
    }
}

/// A client that asked for a checksum is never told that its bytes were written without
/// one; and one that asked for none is never sent one.
pub proof fn a_written_answer_carries_what_it_owes(
    has_plane: bool,
    token_usable: bool,
    checksum: bool,
    write: Option<TokenWrite>,
    crc32: Option<u32>,
)
    ensures
        client_write(has_plane, token_usable, checksum, write, crc32) matches ClientWriteStep::Done(
            w,
            _,
        ) ==> (w.served ==> (w.crc32 is Some <==> checksum) && write == Some(TokenWrite::Written)),
{
}

/// A write that landed is told as such wherever its checksum is at hand or not owed, and the
/// checksum that is told is the one that was taken. Where this node has no plane or the client's
/// memory cannot be addressed nothing is tried; and a decline is passed on by its reason.
pub proof fn a_write_that_landed_is_told(
    checksum: bool,
    crc: u32,
    declined: TokenDecline,
    usable: bool,
    write: Option<TokenWrite>,
)
    ensures
        client_write(true, true, checksum, None, None) == (ClientWriteStep::Write {
            digest: checksum,
        }),
        client_write(true, true, true, Some(TokenWrite::Written), Some(crc))
            == ClientWriteStep::Done(WriteServe { served: true, crc32: Some(crc) }, None),
        client_write(true, true, false, Some(TokenWrite::Written), None) == ClientWriteStep::Done(
            WriteServe { served: true, crc32: None },
            None,
        ),
        client_write(true, true, true, Some(TokenWrite::Written), None) == ClientWriteStep::Done(
            WriteServe { served: false, crc32: None },
            None,
        ),
        client_write(true, true, checksum, Some(TokenWrite::Failed), Some(crc))
            == ClientWriteStep::Done(WriteServe { served: false, crc32: None }, None),
        client_write(true, true, checksum, Some(TokenWrite::Declined(declined)), Some(crc))
            == ClientWriteStep::Done(WriteServe { served: false, crc32: None }, Some(declined)),
        client_write(false, usable, checksum, write, Some(crc)) == ClientWriteStep::Done(
            WriteServe { served: false, crc32: None },
            None,
        ),
        client_write(true, false, checksum, write, Some(crc)) == ClientWriteStep::Done(
            WriteServe { served: false, crc32: None },
            None,
        ),
{
}

// ---- streaming a body ----

/// What the first frame says of a cached chunk: its length, and how it was served. The
/// object's own metadata stands elsewhere.
pub fn cached_meta(len: u64, written: &WriteServe) -> (m: BlobMeta)
    ensures
        m.total_len == len,
        m.object_len == len,
        m.body_start == 0,
        m.e_tag is None,
        m.content_type is None,
        m.last_modified_epoch_secs is None,
        m.served_via_rdma == written.served,
        m.written_crc32 == written.crc32,
{
    BlobMeta {
        total_len: len,
        e_tag: None,
        object_len: len,
        body_start: 0,
        content_type: None,
        last_modified_epoch_secs: None,
        served_via_rdma: written.served,
        written_crc32: written.crc32,
    }
}

/// How many frames carry a body. An empty one still has a frame for its metadata.
pub open spec fn frame_count(len: nat) -> nat {
    if len == 0 {
        1
    } else {
        ((len - 1) / (FRAME_SIZE as int) + 1) as nat
    }
}

/// The part of a body that its frame `i` carries.
pub open spec fn frame(body: Seq<u8>, i: int) -> Seq<u8> {
    body.subrange(
        i * FRAME_SIZE,
        if (i + 1) * FRAME_SIZE <= body.len() {
            (i + 1) * FRAME_SIZE
        } else {
            body.len() as int
        },
    )
}

/// The bytes of all frames, one after the other.
pub open spec fn frame_bytes(frames: Seq<BlobChunk>) -> Seq<u8>
    decreases frames.len(),
{
    if frames.len() == 0 {
        Seq::empty()
    } else {
        frame_bytes(frames.drop_last()) + bytes_of(frames.last().data)
    }
}

/// A frame holds a mebibyte. There are as many as it takes to carry a body, and not one more; an
/// empty body has one.
pub proof fn a_body_takes_few_frames(len: nat)
    ensures
        len > 0 ==> (frame_count(len) - 1) * 1048576 < len <= frame_count(len) * 1048576,
        frame_count(0) == 1,
{
}

/// A frame starts behind those before it, which are full, and ends after a mebibyte or with the
/// body.
pub proof fn a_frame_holds_its_own_bytes(body: Seq<u8>, i: int, k: int)
    requires
        0 <= i < frame_count(body.len()),
        0 <= k < 1048576,
    ensures
        i * 1048576 + k < body.len() ==> k < frame(body, i).len() && frame(body, i)[k] == body[i
            * 1048576 + k],
        i * 1048576 + k >= body.len() ==> k >= frame(body, i).len(),
        frame(body, i).len() <= 1048576,
{
}

/// Cut a body into frames. The first carries the metadata.
pub fn stream_bytes(body: &Bytes, meta: BlobMeta) -> (r: Vec<BlobChunk>)
    ensures
        r@.len() == frame_count(bytes_of(*body).len()),
        forall|i: int|
            0 <= i < r@.len() ==> bytes_of((#[trigger] r@[i]).data) == frame(bytes_of(*body), i),
        forall|i: int|
            0 <= i < r@.len() ==> (#[trigger] r@[i]).meta == if i == 0 {
                Some(meta)
            } else {
                None
            },
{
    let n: usize = body.len();
    let mut out: Vec<BlobChunk> = Vec::new();
    let first: usize = if n > FRAME_SIZE {
        FRAME_SIZE
    } else {
        n
    };
    out.push(BlobChunk { data: slice_of(body, 0, first), meta: Some(meta) });
    let mut offset: usize = first;
    while offset < n
        invariant
            n == bytes_of(*body).len(),
            out@.len() >= 1,
            offset == n ==> out@.len() == frame_count(n as nat),
            offset < n ==> offset == out@.len() * FRAME_SIZE,
            offset <= n,
            forall|i: int|
                0 <= i < out@.len() ==> bytes_of((#[trigger] out@[i]).data) == frame(
                    bytes_of(*body),
                    i,
                ),
            forall|i: int|
                0 <= i < out@.len() ==> (#[trigger] out@[i]).meta == if i == 0 {
                    Some(meta)
                } else {
                    None
                },
        decreases n - offset,
    {
        let end: usize = if n - offset > FRAME_SIZE {
            offset + FRAME_SIZE
        } else {
            n
        };
        out.push(BlobChunk { data: slice_of(body, offset, end), meta: None });
        offset = end;
    }
    out
}

/// The frames of a body carry the body: put end to end they are its bytes, all but the
/// last are full, and no frame is larger than the bound.
pub proof fn frames_carry_the_body(body: Seq<u8>, frames: Seq<BlobChunk>)
    requires
        frames.len() == frame_count(body.len()),
        forall|i: int|
            0 <= i < frames.len() ==> bytes_of((#[trigger] frames[i]).data) == frame(body, i),
    ensures
        frame_bytes(frames) == body,
        forall|i: int|
            0 <= i < frames.len() - 1 ==> bytes_of((#[trigger] frames[i]).data).len() == FRAME_SIZE,
        forall|i: int|
            0 <= i < frames.len() ==> bytes_of((#[trigger] frames[i]).data).len() <= FRAME_SIZE,
{
    lemma_frames(body, frames, frames.len());
    assert(frames.take(frames.len() as int) =~= frames);
    assert(body.subrange(0, body.len() as int) =~= body);
}

/// The first `n` frames carry the body up to their end.
proof fn lemma_frames(body: Seq<u8>, frames: Seq<BlobChunk>, n: nat)
    requires
        frames.len() == frame_count(body.len()),
        forall|i: int|
            0 <= i < frames.len() ==> bytes_of((#[trigger] frames[i]).data) == frame(body, i),
        n <= frames.len(),
    ensures
        frame_bytes(frames.take(n as int)) == body.subrange(
            0,
            if n * FRAME_SIZE <= body.len() {
                n * FRAME_SIZE
            } else {
                body.len() as int
            },
        ),
    decreases n,
{
    if n > 0 {
        lemma_frames(body, frames, (n - 1) as nat);
        assert(frames.take(n as int).drop_last() =~= frames.take(n - 1));
        assert(bytes_of(frames[n - 1].data) == frame(body, n - 1));
    } else {
        assert(frames.take(0).len() == 0);
    }
}

/// The one frame of an answer whose bytes were written already.
pub fn done_only_stream(meta: BlobMeta) -> (r: BlobChunk)
    ensures
        bytes_of(r.data).len() == 0,
        r.meta == Some(meta),
{
    BlobChunk { data: Bytes::new(), meta: Some(meta) }
}

// ---- reading through ----

/// A chunk to read from the backend.
#[derive(Debug)]
pub struct ThroughRead {
    /// The bucket.
    pub bucket: String,
    /// The object's key.
    pub key: String,
    /// The first byte of the chunk.
    pub start: u64,
    /// The range to ask for.
    pub range: String,
}

/// The range text of a chunk. It may run past the object's end, where the backend cuts it.
pub open spec fn range_text(start: nat, last: nat) -> Seq<char> {
    "bytes="@ + decimal(start) + "-"@ + decimal(last)
}

/// The chunk to read for a cache key. The object's length need not be known.
pub fn read_through(cache_key: &str, chunk: &ChunkConfig) -> (r: Result<ThroughRead, PeerStatus>)
    requires
        chunk_key_parts(cache_key@) matches Some((object_key, index)) ==> split_once(
            object_key,
            '/',
        ) is Some ==> (index + 1) * chunk.size() <= u64::MAX,
    ensures
        match chunk_key_parts(cache_key@) {
            None => r matches Err(s) && s.code is InvalidArgument && s.message@
                == "malformed chunk key"@,
            Some((object_key, index)) => match split_once(object_key, '/') {
                None => r matches Err(s) && s.code is InvalidArgument && s.message@
                    == "malformed cache key"@,
                Some((bucket, key)) => r matches Ok(t) && t.bucket@ == bucket && t.key@ == key
                    && t.start == index * chunk.size() && t.range@ == range_text(
                    t.start as nat,
                    (t.start + chunk.size() - 1) as nat,
                ),
            },
        },
{
    match parse_chunk_key(cache_key) {
        None => Err(status(PeerCode::InvalidArgument, "malformed chunk key")),
        Some((object_key, index)) => match object_key_parts(object_key.as_str()) {
            None => Err(status(PeerCode::InvalidArgument, "malformed cache key")),
            Some((bucket, key)) => {
                let size: u64 = chunk.chunk_size();
                assert(index * size + size == (index + 1) * size) by (nonlinear_arith);
                let start: u64 = index * size;
                let last: u64 = start + size - 1;
                let mut range = String::new();
                push_text(&mut range, "bytes=");
                push_decimal(&mut range, start);
                push_text(&mut range, "-");
                push_decimal(&mut range, last);
                assert(range@ =~= range_text(start as nat, last as nat));
                Ok(ThroughRead { bucket, key, start, range })
            },
        },
    }
}

/// The range of a chunk reads back: behind the unit, its first byte up to the dash, and its last
/// behind it.
pub proof fn a_range_reads_back(start: u64, last: u64)
    ensures
        "bytes="@.is_prefix_of(range_text(start as nat, last as nat)),
        ({
            let rest = range_text(start as nat, last as nat).skip(6);
            split_once(rest, '-') matches Some((a, b)) && crate::text::number(a) == Some(start)
                && crate::text::number(b) == Some(last)
        }),
{
    reveal_strlit("bytes=");
    reveal_strlit("-");
    let a = decimal(start as nat);
    let b = decimal(last as nat);
    let all = range_text(start as nat, last as nat);
    let rest = a + "-"@ + b;
    assert(all =~= "bytes="@ + rest);
    assert(all.skip(6) =~= rest);
    crate::text::decimal_holds_no(start as nat, '-');
    crate::text::number_of_decimal(start);
    crate::text::number_of_decimal(last);
    let at = a.len() as int;
    assert forall|j: int| 0 <= j < at implies rest[j] != '-' by {
        assert(rest[j] == a[j]);
    }
    assert(rest[at] == '-');
    crate::text::lemma_first_index(rest, '-', at);
    assert(rest.take(at) =~= a);
    assert(rest.skip(at + 1) =~= b);
}

/// How a backend read that failed is answered: a missing key as such, anything else with
/// the backend's words.
pub fn through_failed(no_such_key: bool, told: &str) -> (s: PeerStatus)
    ensures
        no_such_key ==> s.code is NotFound && s.message@ == "no such key at backend"@,
        !no_such_key ==> s.code is Unavailable && s.message@ == "backend GET failed: "@ + told@,
{
    if no_such_key {
        return status(PeerCode::NotFound, "no such key at backend");
    }
    let mut message = String::new();
    push_text(&mut message, "backend GET failed: ");
    push_text(&mut message, told);
    assert(message@ =~= "backend GET failed: "@ + told@);
    PeerStatus { code: PeerCode::Unavailable, message }
}

/// What the backend said of a chunk.
#[derive(Debug)]
pub struct ThroughReply {
    /// The length of the body.
    pub content_length: Option<i64>,
    /// Which part of the object it is.
    pub content_range: Option<String>,
    /// The object's entity tag, in quotes.
    pub e_tag: Option<String>,
    /// Its content type.
    pub content_type: Option<String>,
    /// When it was last modified, in seconds since the epoch.
    pub last_modified: Option<i64>,
}

/// What the first frame says of a chunk that is read through. The object's length comes
/// from the content range, and is that of the chunk where there is none. An answer without
/// a length cannot be relayed.
pub fn through_meta(reply: &ThroughReply, start: u64) -> (r: Result<BlobMeta, PeerStatus>)
    ensures
        match reply.content_length {
            Some(l) if l >= 0 => r matches Ok(m) && {
                &&& m.total_len == l
                &&& m.object_len == match range_total(opt_text(reply.content_range)) {
                    Some(total) => total,
                    None => l as u64,
                }
                &&& m.body_start == start
                &&& opt_text(m.e_tag) == match opt_text(reply.e_tag) {
                    Some(t) => Some(stripped(t, '"')),
                    None => None,
                }
                &&& opt_text(m.content_type) == opt_text(reply.content_type)
                &&& m.last_modified_epoch_secs == reply.last_modified
                &&& !m.served_via_rdma
                &&& m.written_crc32 is None
            },
            _ => r matches Err(s) && s.code is Internal && s.message@
                == "backend GET without content length"@,
        },
{
    let chunk_len: u64 = match reply.content_length {
        Some(l) => {
            if l < 0 {
                return Err(status(PeerCode::Internal, "backend GET without content length"));
            }
            l as u64
        },
        None => {
            return Err(status(PeerCode::Internal, "backend GET without content length"));
        },
    };
    let told: Option<u64> = match &reply.content_range {
        Some(t) => content_range_total(Some(t.as_str())),
        None => content_range_total(None),
    };
    let object_len: u64 = match told {
        Some(total) => total,
        None => chunk_len,
    };
    let e_tag: Option<String> = match &reply.e_tag {
        Some(t) => {
            let chars = chars_of(t.as_str());
            Some(string_of(strip(chars.as_slice(), '"')))
        },
        None => None,
    };
    Ok(
        BlobMeta {
            total_len: chunk_len,
            e_tag,
            object_len,
            body_start: start,
            content_type: copy_opt(&reply.content_type),
            last_modified_epoch_secs: reply.last_modified,
            served_via_rdma: false,
            written_crc32: None,
        },
    )
}

/// The claim of a read-through: only an object of a size worth keeping is claimed, and only
/// where no other fill of the chunk is in flight.
pub fn claim_through(registry: &mut FillRegistry, cache_key: &str, size_kept: bool) -> (r: Option<
    FillGuard,
>)
    requires
        old(registry).wf(),
    ensures
        final(registry).wf(),
        final(registry).abandoned_count() == old(registry).abandoned_count(),
        r is Some <==> size_kept && !old(registry)@.contains_key(cache_key@),
        r matches Some(g) ==> g.key() == cache_key@ && !g.completed() && final(registry)@ == old(
            registry,
        )@.insert(cache_key@, Phase::Exclusive),
        r is None ==> final(registry)@ == old(registry)@,
{
    if size_kept {
        FillGuard::for_fill(registry, cache_key)
    } else {
        None
    }
}

/// Relays a chunk from the backend to the requester, and gathers it for the fill.
#[derive(Debug)]
pub struct Pump {
    meta: Option<BlobMeta>,
    chunk_len: u64,
    sent: u64,
    buf: Option<BytesMut>,
    failed: bool,
}

/// How a relay ended.
#[derive(Debug)]
pub enum PumpEnd {
    /// Nothing was to be filled.
    Relayed,
    /// The chunk is whole: fill it.
    Fill(Bytes),
    /// The fill is given up.
    Abort,
}

impl Pump {
    /// How many bytes went through.
    pub closed spec fn sent(&self) -> nat {
        self.sent as nat
    }

    /// What was gathered, where the chunk is to be filled.
    pub closed spec fn gathered(&self) -> Option<Seq<u8>> {
        match self.buf {
            Some(b) => Some(buffered(b)),
            None => None,
        }
    }

    /// Whether the relay was cut short.
    pub closed spec fn failed(&self) -> bool {
        self.failed
    }

    /// The length of the chunk.
    pub closed spec fn wanted(&self) -> nat {
        self.chunk_len as nat
    }

    /// The metadata that the next frame carries.
    pub closed spec fn due(&self) -> Option<BlobMeta> {
        self.meta
    }

    /// Everything that went through was gathered, where anything was.
    pub open spec fn wf(&self) -> bool {
        self.gathered() matches Some(g) ==> g.len() == self.sent()
    }

    /// Whether this relay, once it has taken up `part`, is `after` and has sent `frame`.
    pub open spec fn relays(&self, part: Bytes, after: Pump, frame: BlobChunk) -> bool {
        &&& after.wanted() == self.wanted()
        &&& after.failed() == self.failed()
        &&& after.sent() == self.sent() + bytes_of(part).len()
        &&& after.gathered() == match self.gathered() {
            Some(g) => Some(g + bytes_of(part)),
            None => None,
        }
        &&& after.due() is None
        &&& frame.data == part
        &&& frame.meta == self.due()
    }

    /// A relay of a chunk of `meta.total_len` bytes that gathers it where `fill` is set.
    pub fn new(meta: BlobMeta, fill: bool) -> (p: Self)
        requires
            fill ==> meta.total_len <= isize::MAX,
        ensures
            p.wf(),
            p.sent() == 0,
            !p.failed(),
            p.wanted() == meta.total_len,
            p.due() == Some(meta),
            p.gathered() == if fill {
                Some(Seq::<u8>::empty())
            } else {
                None
            },
    {
        let chunk_len: u64 = meta.total_len;
        let buf: Option<BytesMut> = if fill {
            Some(BytesMut::with_capacity(chunk_len as usize))
        } else {
            None
        };
        Pump { meta: Some(meta), chunk_len, sent: 0, buf, failed: false }
    }

    /// Take up a part of the body, and return the frame to send. The first carries the
    /// metadata.
    pub fn relay(&mut self, part: Bytes) -> (r: BlobChunk)
        requires
            old(self).wf(),
            old(self).sent() + bytes_of(part).len() <= u64::MAX,
            old(self).gathered() is Some ==> old(self).sent() + bytes_of(part).len() <= isize::MAX,
        ensures
            final(self).wf(),
            old(self).relays(part, *final(self), r),
    {
        self.sent = self.sent + part.len() as u64;
        let mut buf: Option<BytesMut> = None;
        std::mem::swap(&mut buf, &mut self.buf);
        if let Some(mut b) = buf {
            append(&mut b, &part);
            self.buf = Some(b);
        }
        let mut meta: Option<BlobMeta> = None;
        std::mem::swap(&mut meta, &mut self.meta);
        BlobChunk { data: part, meta }
    }

    /// The requester went away. Without a fill the relay stops; with one it goes on, as
    /// the bytes are paid for. `true` where it stops.
    pub fn requester_left(&mut self) -> (stop: bool)
        requires
            old(self).wf(),
        ensures
            final(self).wf(),
            stop == (old(self).gathered() is None),
            final(self).failed() == (old(self).failed() || stop),
            final(self).sent() == old(self).sent(),
            final(self).wanted() == old(self).wanted(),
            final(self).gathered() == old(self).gathered(),
            final(self).due() == old(self).due(),
    {
        if self.buf.is_none() {
            self.failed = true;
            return true;
        }
        false
    }

    /// The backend's stream broke.
    pub fn backend_broke(&mut self)
        requires
            old(self).wf(),
        ensures
            final(self).wf(),
            final(self).failed(),
            final(self).sent() == old(self).sent(),
            final(self).wanted() == old(self).wanted(),
            final(self).gathered() == old(self).gathered(),
            final(self).due() == old(self).due(),
    {
        self.failed = true;
    }

    /// The relay is over. A chunk is filled only where all of it came: nothing broke, and
    /// what was gathered has the chunk's length.
    pub fn pump_read_through(self) -> (r: PumpEnd)
        requires
            self.wf(),
        ensures
            match self.gathered() {
                None => r is Relayed,
                Some(g) => if !self.failed() && g.len() == self.wanted() {
                    r matches PumpEnd::Fill(body) && bytes_of(body) == g
                } else {
                    r is Abort
                },
            },
    {
        match self.buf {
            None => PumpEnd::Relayed,
            Some(b) => {
                if !self.failed && self.sent == self.chunk_len {
                    PumpEnd::Fill(b.freeze())
                } else {
                    PumpEnd::Abort
                }
            },
        }
    }
}

/// What a relay keeps is what its requester was sent: after any parts, the frames carry them
/// one after the other, the first frame and no other has the metadata, and where the chunk is
/// gathered it is the bytes of all frames. `states` are the relay before each part and after
/// the last.
pub proof fn a_fill_keeps_what_was_sent(
    states: Seq<Pump>,
    parts: Seq<Bytes>,
    frames: Seq<BlobChunk>,
)
    requires
        states.len() == parts.len() + 1,
        frames.len() == parts.len(),
        states[0].sent() == 0,
        states[0].gathered() matches Some(g) ==> g.len() == 0,
        forall|i: int|
            0 <= i < parts.len() ==> (#[trigger] states[i]).relays(
                parts[i],
                states[i + 1],
                frames[i],
            ),
    ensures
        states.last().sent() == frame_bytes(frames).len(),
        states[0].gathered() is Some ==> states.last().gathered() == Some(frame_bytes(frames)),
        states[0].gathered() is None ==> states.last().gathered() is None,
        states.last().wanted() == states[0].wanted(),
        states.last().failed() == states[0].failed(),
        forall|i: int|
            0 <= i < frames.len() ==> (#[trigger] frames[i]).data == parts[i] && frames[i].meta
                == if i == 0 {
                states[0].due()
            } else {
                None
            },
    decreases parts.len(),
{
    if parts.len() > 0 {
        let n = parts.len() - 1;
        let before = states.drop_last();
        assert forall|i: int| 0 <= i < n implies (#[trigger] before[i]).relays(
            parts.drop_last()[i],
            before[i + 1],
            frames.drop_last()[i],
        ) by {
            assert(before[i] == states[i]);
        }
        a_fill_keeps_what_was_sent(before, parts.drop_last(), frames.drop_last());
        assert(before.last() == states[n]);
        assert(states[n].relays(parts[n], states[n + 1], frames[n]));
        assert forall|i: int| 0 <= i < frames.len() implies (#[trigger] frames[i]).data == parts[i]
            && frames[i].meta == if i == 0 {
            states[0].due()
        } else {
            None
        } by {
            if i < n {
                assert(frames.drop_last()[i] == frames[i]);
            } else if i > 0 {
                assert(states[i - 1].relays(parts[i - 1], states[i], frames[i - 1]));
            }
        }
    } else if states[0].gathered() is Some {
        assert(states[0].gathered()->0 =~= frame_bytes(frames));
    }
}

// ---- scattered writes ----

/// Why an offered chunk was refused, as it is told on the wire.
#[derive(Clone, Copy, Debug, PartialEq, Eq, Structural)]
pub enum RefusalReason {
    /// A reason that has no name here.
    Unspecified,
    /// The staging budget is used up.
    BudgetExhausted,
    /// Another upload holds the key.
    RacingUpload,
    /// The chunk is larger than the whole budget.
    OversizedForBudget,
    /// This node takes no chunks.
    NotAccepting,
}

/// A refusal as it is told on the wire.
#[derive(Clone, Copy, Debug, PartialEq, Eq, Structural)]
pub struct WireRefusal {
    /// The reason.
    pub reason: RefusalReason,
    /// How many bytes are staged; or, of a chunk that is too large, how many it has.
    pub staged_bytes: u64,
    /// How many may be staged.
    pub budget_bytes: u64,
}

/// The answer to an offered chunk: one of the two is set.
#[derive(Debug)]
pub struct StoreChunkResponse {
    /// The entity tag of the uploaded part.
    pub e_tag: Option<String>,
    /// The refusal.
    pub refusal: Option<WireRefusal>,
}

fn refused(reason: RefusalReason, staged_bytes: u64, budget_bytes: u64) -> (r: StoreChunkResponse)
    ensures
        r.e_tag is None,
        r.refusal == Some(WireRefusal { reason, staged_bytes, budget_bytes }),
{
    StoreChunkResponse {
        e_tag: None,
        refusal: Some(WireRefusal { reason, staged_bytes, budget_bytes }),
    }
}

/// The name under which a refusal is counted.
pub fn refusal_label(refusal: &StoreRefusal) -> (r: &'static str)
    ensures
        r@ == match *refusal {
            StoreRefusal::BudgetExhausted { .. } => "budget_exhausted"@,
            StoreRefusal::RacingUpload => "racing_upload"@,
            StoreRefusal::OversizedForBudget { .. } => "oversized_for_budget"@,
            StoreRefusal::NotAccepting => "not_accepting"@,
            StoreRefusal::Unknown => "unknown"@,
        },
{
    match refusal {
        StoreRefusal::BudgetExhausted { .. } => "budget_exhausted",
        StoreRefusal::RacingUpload => "racing_upload",
        StoreRefusal::OversizedForBudget { .. } => "oversized_for_budget",
        StoreRefusal::NotAccepting => "not_accepting",
        StoreRefusal::Unknown => "unknown",
    }
}

/// A refusal of a chunk of `chunk_len` bytes, as it is told on the wire.
pub open spec fn wire_refusal(refusal: StoreRefusal, chunk_len: u64) -> WireRefusal {
    match refusal {
        StoreRefusal::BudgetExhausted { staged, budget } => WireRefusal {
            reason: RefusalReason::BudgetExhausted,
            staged_bytes: staged,
            budget_bytes: budget,
        },
        StoreRefusal::RacingUpload => WireRefusal {
            reason: RefusalReason::RacingUpload,
            staged_bytes: 0,
            budget_bytes: 0,
        },
        StoreRefusal::OversizedForBudget { chunk_len: _, budget } => WireRefusal {
            reason: RefusalReason::OversizedForBudget,
            staged_bytes: chunk_len,
            budget_bytes: budget,
        },
        StoreRefusal::NotAccepting => WireRefusal {
            reason: RefusalReason::NotAccepting,
            staged_bytes: 0,
            budget_bytes: 0,
        },
        StoreRefusal::Unknown => WireRefusal {
            reason: RefusalReason::Unspecified,
            staged_bytes: 0,
            budget_bytes: 0,
        },
    }
}

/// A refusal as the coordinator reads it off the wire.
pub open spec fn refusal_read(told: WireRefusal) -> StoreRefusal {
    match told.reason {
        RefusalReason::BudgetExhausted => StoreRefusal::BudgetExhausted {
            staged: told.staged_bytes,
            budget: told.budget_bytes,
        },
        RefusalReason::RacingUpload => StoreRefusal::RacingUpload,
        RefusalReason::OversizedForBudget => StoreRefusal::OversizedForBudget {
            chunk_len: told.staged_bytes,
            budget: told.budget_bytes,
        },
        RefusalReason::NotAccepting => StoreRefusal::NotAccepting,
        RefusalReason::Unspecified => StoreRefusal::Unknown,
    }
}

/// A refusal reads back off the wire as the refusal that it was, its numbers with it; that of a
/// chunk which is too large tells the length that it was offered with, and one that has no numbers
/// tells none.
pub proof fn a_refusal_reads_back(refusal: StoreRefusal, chunk_len: u64)
    ensures
        refusal matches StoreRefusal::OversizedForBudget { budget, .. } ==> refusal_read(
            wire_refusal(refusal, chunk_len),
        ) == (StoreRefusal::OversizedForBudget { chunk_len, budget }),
        !(refusal is OversizedForBudget) ==> refusal_read(wire_refusal(refusal, chunk_len))
            == refusal,
        refusal is RacingUpload || refusal is NotAccepting || refusal is Unknown ==> wire_refusal(
            refusal,
            chunk_len,
        ).staged_bytes == 0 && wire_refusal(refusal, chunk_len).budget_bytes == 0,
{
}

/// The answer that carries a refusal and no entity tag.
pub fn refusal_response(refusal: &StoreRefusal, chunk_len: u64) -> (r: StoreChunkResponse)
    ensures
        r.e_tag is None,
        r.refusal == Some(wire_refusal(*refusal, chunk_len)),
{
    match refusal {
        StoreRefusal::BudgetExhausted { staged, budget } => refused(
            RefusalReason::BudgetExhausted,
            *staged,
            *budget,
        ),
        StoreRefusal::RacingUpload => refused(RefusalReason::RacingUpload, 0, 0),
        StoreRefusal::OversizedForBudget { budget, .. } => refused(
            RefusalReason::OversizedForBudget,
            chunk_len,
            *budget,
        ),
        StoreRefusal::NotAccepting => refused(RefusalReason::NotAccepting, 0, 0),
        StoreRefusal::Unknown => refused(RefusalReason::Unspecified, 0, 0),
    }
}

/// What is done about an offered chunk.
#[derive(Debug)]
pub enum StoreStep {
    /// Upload it as a part.
    Upload,
    /// Answer with this refusal, counted as such.
    Refuse(StoreRefusal, StoreChunkResponse),
}

/// What is done about an offered chunk of `chunk_len` bytes, by how staging it went, or
/// `None` where this node stages nothing. A chunk that was offered before is uploaded
/// again: the coordinator lacks its entity tag.
pub fn store_chunk(outcome: Option<StageOutcome>, chunk_len: u64) -> (r: StoreStep)
    ensures
        match outcome {
            None => r matches StoreStep::Refuse(why, a) && why is NotAccepting && a.e_tag is None
                && a.refusal == Some(wire_refusal(StoreRefusal::NotAccepting, chunk_len)),
            Some(StageOutcome::Refused(refusal)) => r matches StoreStep::Refuse(why, a) && why
                == refusal && a.e_tag is None && a.refusal == Some(
                wire_refusal(refusal, chunk_len),
            ),
            Some(_) => r is Upload,
        },
{
    match outcome {
        None => {
            let why = StoreRefusal::NotAccepting;
            let answer = refusal_response(&why, chunk_len);
            StoreStep::Refuse(why, answer)
        },
        Some(StageOutcome::Refused(refusal)) => {
            let answer = refusal_response(&refusal, chunk_len);
            StoreStep::Refuse(refusal, answer)
        },
        Some(_) => StoreStep::Upload,
    }
}

/// A number below zero or above, in base ten.
pub open spec fn signed_decimal(n: int) -> Seq<char> {
    if n < 0 {
        "-"@ + decimal((-n) as nat)
    } else {
        decimal(n as nat)
    }
}

/// The entity tag of an uploaded part, or what is wrong where the backend gave none.
pub fn part_e_tag(e_tag: Option<String>, part_number: i32) -> (r: Result<String, String>)
    ensures
        match (e_tag, r) {
            (Some(t), Ok(got)) => got == t,
            (None, Err(why)) => why@ == "UploadPart returned no ETag for part "@ + signed_decimal(
                part_number as int,
            ),
            _ => false,
        },
{
    match e_tag {
        Some(t) => Ok(t),
        None => {
            let mut why = String::new();
            push_text(&mut why, "UploadPart returned no ETag for part ");
            let n: i64 = part_number as i64;
            if n < 0 {
                push_text(&mut why, "-");
                push_decimal(&mut why, (0 - n) as u64);
            } else {
                push_decimal(&mut why, n as u64);
            }
            assert(why@ =~= "UploadPart returned no ETag for part "@ + signed_decimal(
                part_number as int,
            ));
            Err(why)
        },
    }
}

/// A number reads back from its text, with its sign.
pub proof fn a_signed_number_reads_back(n: int)
    ensures
        n >= 0 ==> crate::text::digits_value(signed_decimal(n)) == n && crate::text::all_digits(
            signed_decimal(n),
        ),
        n < 0 ==> signed_decimal(n)[0] == '-' && crate::text::digits_value(
            signed_decimal(n).skip(1),
        ) == -n && crate::text::all_digits(signed_decimal(n).skip(1)),
{
    reveal_strlit("-");
    if n < 0 {
        crate::text::decimal_reads_back((-n) as nat);
        assert(signed_decimal(n).skip(1) =~= decimal((-n) as nat));
    } else {
        crate::text::decimal_reads_back(n as nat);
    }
}

/// A staged chunk's upload came back. One that failed gives its reservation back at once,
/// and the call fails with what was told.
pub fn part_uploaded(
    staging: &mut StagingArea,
    chunk_key: &str,
    uploaded: Result<String, String>,
) -> (r: Result<StoreChunkResponse, PeerStatus>)
    requires
        old(staging).wf(),
    ensures
        final(staging).wf(),
        final(staging).budget() == old(staging).budget(),
        final(staging).lifetime() == old(staging).lifetime(),
        final(staging).peak() == old(staging).peak(),
        match (uploaded, r) {
            (Ok(e_tag), Ok(a)) => {
                &&& opt_text(a.e_tag) == Some(e_tag@)
                &&& a.refusal is None
                &&& final(staging)@ == old(staging)@
            },
            (Err(told), Err(s)) => s.code is Internal && s.message@ == "upload_part failed: "@
                + told@ && final(staging)@ == old(staging)@.filter(
                |c: StagedChunk| c.key != chunk_key@,
            ),
            _ => false,
        },
{
    match uploaded {
        Ok(e_tag) => Ok(StoreChunkResponse { e_tag: Some(e_tag), refusal: None }),
        Err(told) => {
            let _ = staging.release(chunk_key);
            let mut message = String::new();
            push_text(&mut message, "upload_part failed: ");
            push_text(&mut message, told.as_str());
            assert(message@ =~= "upload_part failed: "@ + told@);
            Err(PeerStatus { code: PeerCode::Internal, message })
        },
    }
}

/// A count as it is told on the wire.
pub open spec fn wire_count(n: nat) -> u32 {
    if n <= u32::MAX {
        n as u32
    } else {
        u32::MAX
    }
}

/// A count is told as it is, as far as the wire can tell it, and as the most beyond that.
pub proof fn a_count_is_told_as_it_is(n: nat)
    ensures
        n <= 0xffff_ffff ==> wire_count(n) == n,
        n > 0xffff_ffff ==> wire_count(n) == 0xffff_ffff,
{
}

fn told_count(n: usize) -> (r: u32)
    ensures
        r == wire_count(n as nat),
{
    if n <= u32::MAX as usize {
        n as u32
    } else {
        u32::MAX
    }
}

/// An upload was completed: its chunks are handed over to be cached, and counted.
pub fn commit_upload(staging: &mut StagingArea, upload_id: &str) -> (r: (
    Vec<(String, Bytes)>,
    u32,
))
    requires
        old(staging).wf(),
    ensures
        final(staging).wf(),
        final(staging).budget() == old(staging).budget(),
        final(staging).lifetime() == old(staging).lifetime(),
        final(staging).peak() == old(staging).peak(),
        final(staging)@ == old(staging)@.filter(|c: StagedChunk| c.upload != upload_id@),
        r.0@.len() == old(staging)@.filter(|c: StagedChunk| c.upload == upload_id@).len(),
        forall|i: int|
            0 <= i < r.0@.len() ==> {
                let c = old(staging)@.filter(|c: StagedChunk| c.upload == upload_id@)[i];
                (#[trigger] r.0@[i]).0@ == c.key && bytes_of(r.0@[i].1) == c.body
            },
        r.1 == wire_count(r.0@.len()),
{
    let chunks = staging.commit(upload_id);
    let n: usize = chunks.len();
    (chunks, told_count(n))
}

/// An upload was given up: its chunks are dropped, and counted.
pub fn discard_upload(staging: &mut StagingArea, upload_id: &str) -> (n: u32)
    requires
        old(staging).wf(),
    ensures
        final(staging).wf(),
        final(staging).budget() == old(staging).budget(),
        final(staging).lifetime() == old(staging).lifetime(),
        final(staging).peak() == old(staging).peak(),
        final(staging)@ == old(staging)@.filter(|c: StagedChunk| c.upload != upload_id@),
        n == wire_count(old(staging)@.filter(|c: StagedChunk| c.upload == upload_id@).len()),
{
    told_count(staging.discard(upload_id))
}

// ---- the directory ----

/// A tier as it is told on the wire.
#[derive(Clone, Copy, Debug, PartialEq, Eq, Structural)]
pub enum WireTier {
    /// None is told, or one that has no name here.
    Unspecified,
    /// In memory.
    Dram,
    /// On disk.
    Nvme,
}

/// What an announcement does to the directory.
#[derive(Clone, Copy, Debug, PartialEq, Eq, Structural)]
pub enum Announced {
    /// The node holds the chunk no longer.
    Evict,
    /// The node holds the chunk in that tier.
    Enter(Tier),
}

/// What an announcement does to the directory. A tier that is not told, or not known, is
/// taken for the slower one.
pub fn announce(evict: bool, tier: Option<WireTier>) -> (r: Announced)
    ensures
        r == if evict {
            Announced::Evict
        } else if tier == Some(WireTier::Dram) {
            Announced::Enter(Tier::Dram)
        } else {
            Announced::Enter(Tier::Nvme)
        },
{
    if evict {
        return Announced::Evict;
    }
    match tier {
        Some(WireTier::Dram) => Announced::Enter(Tier::Dram),
        _ => Announced::Enter(Tier::Nvme),
    }
}

/// A holder as it is told on the wire.
#[derive(Debug)]
pub struct Sharer {
    /// The holding node's name.
    pub node: String,
    /// Where it holds the chunk.
    pub tier: WireTier,
    /// The generation of the entry.
    pub generation: u64,
}

/// What the directory says of a chunk, as it is told on the wire.
#[derive(Debug)]
pub struct Sharers {
    /// The holders.
    pub sharers: Vec<Sharer>,
    /// Whether there are more than the directory keeps.
    pub widely_held: bool,
}

/// Whether a holder is told as it is.
pub open spec fn told_as(h: Holder, s: Sharer) -> bool {
    &&& s.node == h.node
    &&& s.generation == h.generation
    &&& s.tier == match h.tier {
        Tier::Dram => WireTier::Dram,
        Tier::Nvme => WireTier::Nvme,
    }
}

/// A holder is told by its own name, under its own generation, and in the tier that it holds the
/// chunk in: memory as memory and disk as disk.
pub proof fn a_holder_is_told_as_it_is(h: Holder, s: Sharer)
    requires
        told_as(h, s),
    ensures
        s.node@ == h.node@,
        s.generation == h.generation,
        h.tier is Dram ==> s.tier is Dram,
        h.tier is Nvme ==> s.tier is Nvme,
{
}

/// The answer about a chunk's holders, in the directory's order. A chunk that it does not
/// know has none.
pub fn lookup_sharers(set: Option<(Vec<Holder>, bool)>) -> (r: Sharers)
    ensures
        match set {
            Some((holders, widely_held)) => {
                &&& r.sharers@.len() == holders@.len()
                &&& forall|i: int|
                    0 <= i < holders@.len() ==> told_as(
                        #[trigger] holders@[i],
                        r.sharers@[i],
                    )
                &&& r.widely_held == widely_held
            },
            None => r.sharers@.len() == 0 && !r.widely_held,
        },
{
    match set {
        None => Sharers { sharers: Vec::new(), widely_held: false },
        Some((holders, widely_held)) => {
            let ghost all = holders@;
            let mut sharers: Vec<Sharer> = Vec::new();
            for h in it: holders
                invariant
                    it.seq() == all,
                    sharers@.len() == it.index(),
                    forall|i: int|
                        0 <= i < sharers@.len() ==> told_as(#[trigger] all[i], sharers@[i]),
            {
                let tier: WireTier = match h.tier {
                    Tier::Dram => WireTier::Dram,
                    Tier::Nvme => WireTier::Nvme,
                };
                sharers.push(Sharer { node: h.node, tier, generation: h.generation });
            }
            Sharers { sharers, widely_held }
        },
    }
}

} // verus!
