//! The cached read path: a GET becomes a policy decision, a header, and the chunks that
//! cover the requested range.

use std::ops::Range;

use bytes::Bytes;
use vstd::prelude::*;

use crate::answer::{
    describe, describes, failure, ErrorCode, Failure, GetOutput, ObjectHeader,
};
use crate::blob::{bytes_of, slice_of};
use crate::chunk::{chunk_span, chunks_in, index_below_count};
use crate::scatter::{
    body_of, end_to_end, lemma_full_windows, split_after, windows_reassemble_the_body,
};
use crate::text::{chars_of, opt_text, same_chars, string_of, strip, stripped};

verus! {

// ---- conditions ----

/// An entity tag as a client sends it, without quotes.
#[derive(Debug)]
pub enum ETag {
    /// A strong validator.
    Strong(String),
    /// A weak validator.
    Weak(String),
}

/// What a client's `If-Match` asks.
#[derive(Debug)]
pub enum ETagCondition {
    /// Any representation will do.
    Any,
    /// The representation with this tag.
    ETag(ETag),
}

/// Whether `If-Match` lets a read be served from the cache, given the tag that this node
/// resolved for the object. Without a condition, or with one that any representation
/// meets, it does. A strong tag must be ours; a weak one never is, and without a tag of
/// our own nothing is decided in its favour.
pub open spec fn condition_met(
    if_match: Option<ETagCondition>,
    header_etag: Option<Seq<char>>,
) -> bool {
    match if_match {
        None => true,
        Some(ETagCondition::Any) => true,
        Some(ETagCondition::ETag(ETag::Weak(_))) => false,
        Some(ETagCondition::ETag(ETag::Strong(asked))) => match header_etag {
            Some(ours) => stripped(ours, '"') == asked@,
            None => false,
        },
    }
}

/// Whether `If-Match` lets a read be served from the cache. Where it does not, the read
/// passes through to the backend: it is never answered with a failed precondition.
pub fn if_match_allows_cache(if_match: Option<&ETagCondition>, header_etag: Option<&str>) -> (r:
    bool)
    ensures
        r == condition_met(
            match if_match {
                Some(c) => Some(*c),
                None => None,
            },
            match header_etag {
                Some(t) => Some(t@),
                None => None,
            },
        ),
{
    match if_match {
        None => true,
        Some(condition) => match condition {
            ETagCondition::Any => true,
            ETagCondition::ETag(tag) => match tag {
                ETag::Weak(_) => false,
                ETag::Strong(asked) => match header_etag {
                    None => false,
                    Some(ours) => {
                        let chars = chars_of(ours);
                        let bare = strip(chars.as_slice(), '"');
                        let want = chars_of(asked.as_str());
                        same_chars(bare, want.as_slice())
                    },
                },
            },
        },
    }
}

/// A cached object may answer a read exactly where the read has no condition, or one that any
/// object meets, or one that names our tag, be ours in quotes or not: never where the tag that
/// it names is weak, and never where we have none.
pub proof fn what_conditions_the_cache_meets(
    tag: String,
    ours: Seq<char>,
    if_match: Option<ETagCondition>,
)
    ensures
        condition_met(None, Some(ours)) && condition_met(None, None),
        condition_met(Some(ETagCondition::Any), Some(ours)),
        condition_met(Some(ETagCondition::Any), None),
        !condition_met(Some(ETagCondition::ETag(ETag::Weak(tag))), Some(ours)),
        !condition_met(Some(ETagCondition::ETag(ETag::Weak(tag))), None),
        !condition_met(Some(ETagCondition::ETag(ETag::Strong(tag))), None),
        (ours.len() > 0 && ours[0] != '"' && ours.last() != '"') ==> (condition_met(
            Some(ETagCondition::ETag(ETag::Strong(tag))),
            Some(ours),
        ) <==> tag@ == ours) && (condition_met(
            Some(ETagCondition::ETag(ETag::Strong(tag))),
            Some(seq!['"'] + ours + seq!['"']),
        ) <==> tag@ == ours),
{
    if ours.len() > 0 && ours[0] != '"' && ours.last() != '"' {
        crate::text::stripping_takes_the_ends_off(ours, '"', 0, 0);
        crate::text::stripping_takes_the_ends_off(ours, '"', 1, 1);
        let one = seq!['"'];
        assert(Seq::new(0, |i: int| '"') + ours + Seq::new(0, |i: int| '"') =~= ours);
        assert(Seq::new(1, |i: int| '"') + ours + Seq::new(1, |i: int| '"') =~= one + ours + one);
    }
}

/// What a GET carries, besides its range and `If-Match`, that a cached object cannot
/// reproduce.
#[derive(Clone, Copy, Debug, PartialEq, Eq, Structural)]
pub struct GetShape {
    /// It has `If-None-Match`.
    pub if_none_match: bool,
    /// It has `If-Modified-Since`.
    pub if_modified_since: bool,
    /// It has `If-Unmodified-Since`.
    pub if_unmodified_since: bool,
    /// It names a version.
    pub version_id: bool,
    /// It brings its own encryption key.
    pub sse_customer_algorithm: bool,
}

/// Whether a GET carries nothing that a cached object cannot reproduce.
pub open spec fn plain_shape(s: GetShape) -> bool {
    !s.if_none_match && !s.if_modified_since && !s.if_unmodified_since && !s.version_id
        && !s.sse_customer_algorithm
}

/// Whether a GET may be served from and admitted to the cache, as far as its shape goes.
pub fn cacheable_shape(input: &GetShape) -> (r: bool)
    ensures
        r == plain_shape(*input),
{
    !input.if_none_match && !input.if_modified_since && !input.if_unmodified_since
        && !input.version_id && !input.sse_customer_algorithm
}

/// Each of the five conditions that a cached object cannot reproduce keeps a read from it by
/// itself, and nothing else about its shape does.
pub proof fn any_such_condition_keeps_a_read_from_the_cache(s: GetShape)
    ensures
        s.if_none_match ==> !plain_shape(s),
        s.if_modified_since ==> !plain_shape(s),
        s.if_unmodified_since ==> !plain_shape(s),
        s.version_id ==> !plain_shape(s),
        s.sse_customer_algorithm ==> !plain_shape(s),
        !plain_shape(s) ==> s.if_none_match || s.if_modified_since || s.if_unmodified_since
            || s.version_id || s.sse_customer_algorithm,
{
}

/// An object is absent exactly where the backend says so, by its modelled answer or by the code
/// of a missing key. Any other code, or none, does not say so.
pub proof fn only_a_missing_key_is_absent(code: Seq<char>)
    ensures
        absent(true, None) && absent(true, Some(code)),
        !absent(false, None),
        absent(false, Some(code)) <==> code == "NoSuchKey"@,
{
}

// ---- the header ----

/// The header that a backend HEAD tells, or why it tells none: a length is owed, and it
/// is not negative. The tag is kept without its quotes.
pub fn header_from_head(
    content_length: Option<i64>,
    e_tag: Option<&str>,
    content_type: Option<&str>,
    last_modified_epoch_secs: Option<i64>,
) -> (r: Result<ObjectHeader, Failure>)
    ensures
        r is Ok <==> (content_length matches Some(n) && n >= 0),
        r matches Ok(h) ==> {
            &&& Some(h.object_len as int) == (match content_length {
                Some(n) => Some(n as int),
                None => None,
            })
            &&& opt_text(h.e_tag) == (match e_tag {
                Some(t) => Some(stripped(t@, '"')),
                None => None,
            })
            &&& opt_text(h.content_type) == (match content_type {
                Some(t) => Some(t@),
                None => None,
            })
            &&& h.last_modified_epoch_secs == last_modified_epoch_secs
        },
        r matches Err(f) ==> f.code is InternalError && f.message@
            == "backend HeadObject without content length"@,
{
    let object_len: u64 = match content_length {
        Some(n) => {
            if n < 0 {
                return Err(
                    failure(
                        ErrorCode::InternalError,
                        "backend HeadObject without content length",
                    ),
                );
            }
            n as u64
        },
        None => {
            return Err(
                failure(ErrorCode::InternalError, "backend HeadObject without content length"),
            );
        },
    };
    let tag: Option<String> = match e_tag {
        Some(t) => {
            let chars = chars_of(t);
            Some(string_of(strip(chars.as_slice(), '"')))
        },
        None => None,
    };
    let kind: Option<String> = match content_type {
        Some(t) => Some(t.to_owned()),
        None => None,
    };
    Ok(ObjectHeader { object_len, e_tag: tag, content_type: kind, last_modified_epoch_secs })
}

/// Whether a failed backend HEAD says that the object is absent: either the modelled
/// answer, or the bare code.
pub open spec fn absent(not_found: bool, code: Option<Seq<char>>) -> bool {
    not_found || code == Some("NoSuchKey"@)
}

/// Whether a failed backend HEAD says that the object is absent.
pub fn says_absent(not_found: bool, code: Option<&str>) -> (r: bool)
    ensures
        r == absent(
            not_found,
            match code {
                Some(c) => Some(c@),
                None => None,
            },
        ),
{
    not_found || match code {
        Some(c) => c.eq("NoSuchKey"),
        None => false,
    }
}

/// What a failed backend HEAD is answered.
pub fn head_failure(not_found: bool, code: Option<&str>) -> (f: Failure)
    ensures
        absent(
            not_found,
            match code {
                Some(c) => Some(c@),
                None => None,
            },
        ) ==> f.code is NoSuchKey && f.message@ == "The specified key does not exist."@,
        !absent(
            not_found,
            match code {
                Some(c) => Some(c@),
                None => None,
            },
        ) ==> f.code is InternalError && f.message@ == "backend HeadObject failed"@,
{
    if says_absent(not_found, code) {
        failure(ErrorCode::NoSuchKey, "The specified key does not exist.")
    } else {
        failure(ErrorCode::InternalError, "backend HeadObject failed")
    }
}

// ---- the decisions of one GET ----

/// What `Cache-Control` and the part number make of a read.
#[derive(Clone, Copy, Debug, PartialEq, Eq, Structural)]
pub enum ReadDecision {
    /// Do not touch the cache.
    Bypass,
    /// Serve from the cache, and fill it.
    CacheAndFill,
    /// Serve from the cache, and leave it as it is.
    CacheNoFill,
}

/// The first decision of a GET.
#[derive(Clone, Copy, Debug, PartialEq, Eq, Structural)]
pub enum FirstStep {
    /// Answer who holds the object. No byte of it moves, and no read is counted.
    AnswerEndpoints,
    /// Count a bypass and hand the request to the backend.
    PassThrough,
    /// Resolve the object's header.
    ResolveHeader,
}

/// The first decision of a GET. A question for endpoints is answered before anything
/// else is looked at.
pub fn first_step(endpoints_asked: bool, decision: ReadDecision, shape: &GetShape) -> (r: FirstStep)
    ensures
        r == if endpoints_asked {
            FirstStep::AnswerEndpoints
        } else if decision is Bypass || !plain_shape(*shape) {
            FirstStep::PassThrough
        } else {
            FirstStep::ResolveHeader
        },
{
    if endpoints_asked {
        return FirstStep::AnswerEndpoints;
    }
    if matches!(decision, ReadDecision::Bypass) || !cacheable_shape(shape) {
        return FirstStep::PassThrough;
    }
    FirstStep::ResolveHeader
}

/// What the resolved header leads to.
#[derive(Clone, Copy, Debug, PartialEq, Eq, Structural)]
pub enum HeaderStep {
    /// Count a bypass and hand the request to the backend.
    PassThrough {
        /// Whether a condition was met first, and is counted.
        conditional_served: bool,
    },
    /// Serve the read from the cache.
    Serve {
        /// Whether a condition was met, and is counted.
        conditional_served: bool,
        /// Whether missing chunks may be filled.
        may_fill: bool,
        /// Whether the header is to be cached.
        remember_header: bool,
        /// Whether a miss is counted.
        count_miss: bool,
    },
}

/// Whether a freshly found header is cached: only where the read may fill, the header is
/// not cached yet, and this node owns the key.
pub open spec fn header_kept(may_fill: bool, header_cached: bool, owns_key: bool) -> bool {
    may_fill && !header_cached && owns_key
}

/// What the resolved header leads to: a condition that cannot be judged in favour of the
/// cache, or an object outside the admitted sizes, passes through; anything else is
/// served.
pub open spec fn after_header(
    conditional_get_from_cache: bool,
    if_match: Option<ETagCondition>,
    header_etag: Option<Seq<char>>,
    size_admitted: bool,
    decision: ReadDecision,
    header_cached: bool,
    owns_key: bool,
) -> HeaderStep {
    if if_match is Some && !conditional_get_from_cache || !condition_met(if_match, header_etag) {
        HeaderStep::PassThrough { conditional_served: false }
    } else if !size_admitted {
        HeaderStep::PassThrough { conditional_served: if_match is Some }
    } else {
        HeaderStep::Serve {
            conditional_served: if_match is Some,
            may_fill: decision is CacheAndFill,
            remember_header: header_kept(decision is CacheAndFill, header_cached, owns_key),
            count_miss: !header_cached,
        }
    }
}

/// What the resolved header leads to. `size_admitted` is the size policy's answer for
/// the object, and `owns_key` whether this node is a home of the object's key.
pub fn header_step(
    conditional_get_from_cache: bool,
    if_match: Option<&ETagCondition>,
    header_etag: Option<&str>,
    size_admitted: bool,
    decision: ReadDecision,
    header_cached: bool,
    owns_key: bool,
) -> (r: HeaderStep)
    ensures
        r == after_header(
            conditional_get_from_cache,
            match if_match {
                Some(c) => Some(*c),
                None => None,
            },
            match header_etag {
                Some(t) => Some(t@),
                None => None,
            },
            size_admitted,
            decision,
            header_cached,
            owns_key,
        ),
{
    let conditional: bool = if_match.is_some();
    if !conditional_get_from_cache && conditional {
        return HeaderStep::PassThrough { conditional_served: false };
    }
    if !if_match_allows_cache(if_match, header_etag) {
        return HeaderStep::PassThrough { conditional_served: false };
    }
    if !size_admitted {
        return HeaderStep::PassThrough { conditional_served: conditional };
    }
    let may_fill: bool = matches!(decision, ReadDecision::CacheAndFill);
    HeaderStep::Serve {
        conditional_served: conditional,
        may_fill,
        remember_header: may_fill && !header_cached && owns_key,
        count_miss: !header_cached,
    }
}

/// A read whose `If-Match` this node cannot vouch for is never served from the cache:
/// another tag, a weak one, or none of our own to compare with.
pub proof fn an_unmet_condition_is_never_served(
    conditional_get_from_cache: bool,
    asked: ETag,
    header_etag: Option<Seq<char>>,
    size_admitted: bool,
    decision: ReadDecision,
    header_cached: bool,
    owns_key: bool,
)
    ensures
        asked is Weak || header_etag is None || !conditional_get_from_cache || stripped(
            header_etag->0,
            '"',
        ) != (asked->Strong_0)@ ==> after_header(
            conditional_get_from_cache,
            Some(ETagCondition::ETag(asked)),
            header_etag,
            size_admitted,
            decision,
            header_cached,
            owns_key,
        ) == (HeaderStep::PassThrough { conditional_served: false }),
{
}

/// A read that must not fill leaves nothing behind: no chunk is admitted for it and no
/// header is kept. Nor does a node keep the header of a key that it does not own.
pub proof fn a_header_is_kept_only_by_a_filling_owner(
    conditional_get_from_cache: bool,
    if_match: Option<ETagCondition>,
    header_etag: Option<Seq<char>>,
    size_admitted: bool,
    decision: ReadDecision,
    header_cached: bool,
    owns_key: bool,
)
    ensures
        after_header(
            conditional_get_from_cache,
            if_match,
            header_etag,
            size_admitted,
            decision,
            header_cached,
            owns_key,
        ) matches HeaderStep::Serve { may_fill, remember_header, .. } ==> {
            &&& !(decision is CacheAndFill) ==> !may_fill && !remember_header
            &&& !owns_key ==> !remember_header
            &&& header_cached ==> !remember_header
        },
{
}

/// A read whose condition is met, of an object whose size is admitted, is served from the cache:
/// it fills where it was told to, a miss is counted where the header was not cached, and the
/// header is then kept by a filling owner. One of an object whose size is not admitted is not.
pub proof fn what_reads_are_served(
    conditional_get_from_cache: bool,
    if_match: Option<ETagCondition>,
    header_etag: Option<Seq<char>>,
    decision: ReadDecision,
    header_cached: bool,
    owns_key: bool,
)
    requires
        if_match is None || conditional_get_from_cache && condition_met(if_match, header_etag),
    ensures
        after_header(
            conditional_get_from_cache,
            if_match,
            header_etag,
            true,
            decision,
            header_cached,
            owns_key,
        ) == (HeaderStep::Serve {
            conditional_served: if_match is Some,
            may_fill: decision is CacheAndFill,
            remember_header: decision is CacheAndFill && !header_cached && owns_key,
            count_miss: !header_cached,
        }),
        after_header(
            conditional_get_from_cache,
            if_match,
            header_etag,
            false,
            decision,
            header_cached,
            owns_key,
        ) is PassThrough,
{
}

// ---- the range ----

/// The range that a request names.
#[derive(Clone, Copy, Debug, PartialEq, Eq, Structural)]
pub enum HttpRange {
    /// From `first` up to and with `last`, or to the end.
    Int {
        /// The first byte.
        first: u64,
        /// The last byte.
        last: Option<u64>,
    },
    /// The last `length` bytes.
    Suffix {
        /// How many.
        length: u64,
    },
}

/// A request's range as the range resolver takes it: first byte, last byte, suffix
/// length.
pub fn range_parts(range: &HttpRange) -> (r: (Option<u64>, Option<u64>, Option<u64>))
    ensures
        r == match *range {
            HttpRange::Int { first, last } => (Some(first), last, None::<u64>),
            HttpRange::Suffix { length } => (None::<u64>, None::<u64>, Some(length)),
        },
{
    match *range {
        HttpRange::Int { first, last } => (Some(first), last, None),
        HttpRange::Suffix { length } => (None, None, Some(length)),
    }
}

/// The bytes of the object to serve: all of them where the request names no range, and
/// otherwise what the range resolver made of the named one. A named range that cannot be
/// satisfied fails the request.
pub fn range_step(range: Option<&HttpRange>, object_len: u64, resolved: Option<Range<u64>>) -> (r:
    Result<Range<u64>, Failure>)
    ensures
        range is None ==> r == Ok::<Range<u64>, Failure>(Range { start: 0, end: object_len }),
        range is Some && resolved is Some ==> r == Ok::<Range<u64>, Failure>(resolved->0),
        range is Some && resolved is None ==> (r matches Err(f) && f.code is InvalidRange
            && f.message@ == "The requested range is not satisfiable"@),
{
    match range {
        None => Ok(Range { start: 0, end: object_len }),
        Some(_) => match resolved {
            Some(r) => Ok(r),
            None => Err(
                failure(ErrorCode::InvalidRange, "The requested range is not satisfiable"),
            ),
        },
    }
}

// ---- the body ----

/// Which bytes of a chunk that starts at `chunk_start` lie in the range from `start` up
/// to `end`.
pub open spec fn part_of_chunk(chunk_start: nat, len: nat, start: nat, end: nat) -> (nat, nat) {
    let from = if start <= chunk_start {
        0
    } else if start - chunk_start >= len {
        len
    } else {
        (start - chunk_start) as nat
    };
    let to = if end <= chunk_start {
        0
    } else if end - chunk_start >= len {
        len
    } else {
        (end - chunk_start) as nat
    };
    (
        from,
        if to < from {
            from
        } else {
            to
        },
    )
}

/// The bytes of a chunk that lie in the requested range: the first and the last covering
/// chunk are trimmed, those between pass whole.
pub fn slice_for(body: &Bytes, chunk_start: u64, start: u64, end: u64) -> (r: Bytes)
    ensures
        ({
            let (from, to) = part_of_chunk(
                chunk_start as nat,
                bytes_of(*body).len(),
                start as nat,
                end as nat,
            );
            from <= to <= bytes_of(*body).len() && bytes_of(r) == bytes_of(*body).subrange(
                from as int,
                to as int,
            )
        }),
{
    let len: usize = body.len();
    let skip: u64 = start.saturating_sub(chunk_start);
    let stop: u64 = end.saturating_sub(chunk_start);
    let from: usize = if skip >= len as u64 {
        len
    } else {
        skip as usize
    };
    let to: usize = if stop >= len as u64 {
        len
    } else {
        stop as usize
    };
    let to: usize = if to < from {
        from
    } else {
        to
    };
    slice_of(body, from, to)
}

/// A chunk gives a range exactly the bytes that lie in both, each once and in order: a byte of
/// the chunk is sent where its position in the object is in the range, and no other is.
pub proof fn a_chunk_gives_what_lies_in_the_range(
    chunk_start: nat,
    len: nat,
    start: nat,
    end: nat,
    k: nat,
)
    requires
        k < len,
        start <= end,
    ensures
        ({
            let (from, to) = part_of_chunk(chunk_start, len, start, end);
            &&& from <= to <= len
            &&& from <= k < to <==> start <= chunk_start + k < end
        }),
{
}

/// The bytes of an object that its chunk `index` holds.
pub open spec fn chunk_of(object: Seq<u8>, size: nat, index: nat) -> Seq<u8> {
    match chunk_span(size, index, object.len()) {
        Some((a, b)) => object.subrange(a as int, b as int),
        None => Seq::empty(),
    }
}

/// The chunks from `first` up to `last`, trimmed to the range and put end to end: the
/// body that a read sends.
pub open spec fn body_sent(
    object: Seq<u8>,
    size: nat,
    first: nat,
    last: nat,
    start: nat,
    end: nat,
) -> Seq<u8>
    decreases last,
{
    if last <= first {
        Seq::empty()
    } else {
        let index = (last - 1) as nat;
        let chunk = chunk_of(object, size, index);
        let (from, to) = part_of_chunk(index * size, chunk.len(), start, end);
        body_sent(object, size, first, index, start, end) + chunk.subrange(from as int, to as int)
    }
}

/// The chunks up to `last` send the range up to their end.
proof fn lemma_body_sent(object: Seq<u8>, size: nat, last: nat, start: nat, end: nat)
    requires
        size > 0,
        start < end <= object.len(),
        start / size <= last <= chunks_in(size, end),
    ensures
        body_sent(object, size, start / size, last, start, end) == if last == start / size {
            Seq::<u8>::empty()
        } else if last * size <= end {
            object.subrange(start as int, (last * size) as int)
        } else {
            object.subrange(start as int, end as int)
        },
        last > start / size ==> last * size > start,
    decreases last,
{
    let first = start / size;
    vstd::arithmetic::div_mod::lemma_fundamental_div_mod(start as int, size as int);
    assert(first * size <= start < first * size + size) by {
        assert(size * (start / size) == first * size) by (nonlinear_arith)
            requires
                first == start / size,
        ;
        vstd::arithmetic::div_mod::lemma_mod_bound(start as int, size as int);
    }
    if last > first {
        let index = (last - 1) as nat;
        lemma_body_sent(object, size, index, start, end);
        assert(last * size == index * size + size) by (nonlinear_arith)
            requires
                last == index + 1,
        ;
        index_below_count(size, index, end);
        assert(index * size < end);
        let chunk = chunk_of(object, size, index);
        let (from, to) = part_of_chunk(index * size, chunk.len(), start, end);
        let piece = chunk.subrange(from as int, to as int);
        if index == first {
            if last * size <= end {
                assert(piece =~= object.subrange(start as int, (last * size) as int));
            } else {
                assert(piece =~= object.subrange(start as int, end as int));
            }
        } else {
            let before = object.subrange(start as int, (index * size) as int);
            if last * size <= end {
                assert(before + piece =~= object.subrange(start as int, (last * size) as int));
            } else {
                assert(before + piece =~= object.subrange(start as int, end as int));
            }
        }
    }
}

/// A read gives back exactly the requested bytes: the chunks that cover a range, each
/// trimmed to it and sent in order, are the range of the object.
pub proof fn a_read_gives_back_the_range(object: Seq<u8>, size: nat, start: nat, end: nat)
    requires
        size > 0,
        start < end <= object.len(),
    ensures
        body_sent(object, size, start / size, chunks_in(size, end), start, end)
            == object.subrange(start as int, end as int),
{
    let last = chunks_in(size, end);
    index_below_count(size, start / size, end);
    vstd::arithmetic::div_mod::lemma_fundamental_div_mod(start as int, size as int);
    vstd::arithmetic::div_mod::lemma_mod_bound(start as int, size as int);
    assert((start / size) * size <= start) by {
        assert(size * (start / size) == (start / size) * size) by (nonlinear_arith);
    }
    assert(start / size < last);
    lemma_body_sent(object, size, last, start, end);
    index_below_count(size, last, end);
    if last * size <= end {
        assert(last * size >= end);
    }
}

/// A scattered write caches what a read would: every window that is cut off a body is the
/// body's chunk of that index, however the body was framed. What is left over once no
/// full window is left is its last chunk.
pub proof fn a_scattered_body_is_read_back(size: nat, steps: Seq<Option<Seq<u8>>>, index: nat)
    requires
        size > 0,
    ensures
        index < split_after(size, steps).0.len() ==> split_after(size, steps).0[index as int]
            == chunk_of(body_of(steps), size, index),
        index == split_after(size, steps).0.len() && split_after(size, steps).1.len() < size
            ==> split_after(size, steps).1 == chunk_of(body_of(steps), size, index),
{
    let (windows, held) = split_after(size, steps);
    let body = body_of(steps);
    windows_reassemble_the_body(size, steps);
    lemma_full_windows(size, windows, index);
    let n = windows.len();
    let front = end_to_end(windows);
    assert((index + 1) * size == index * size + size) by (nonlinear_arith);
    if index < n {
        assert(windows[index as int] == front.subrange(
            (index * size) as int,
            ((index + 1) * size) as int,
        ));
        assert(body.subrange((index * size) as int, ((index + 1) * size) as int) =~= front.subrange(
            (index * size) as int,
            ((index + 1) * size) as int,
        ));
    } else if index == n && held.len() < size {
        if held.len() > 0 {
            assert(body.subrange((index * size) as int, body.len() as int) =~= held);
        } else {
            assert(held =~= Seq::<u8>::empty());
        }
    }
}

// ---- the response ----

/// The response to a read that was served: the object's metadata, the length of the
/// range, and the range itself where one was named.
pub fn get_output(header: &ObjectHeader, start: u64, end: u64, ranged: bool) -> (out: GetOutput)
    requires
        start <= end,
        ranged ==> end > 0,
    ensures
        describes(out, *header, start as nat, end as nat, ranged),
        out.content_length == ((end - start) as u64) as i64,
        out.extra@.len() == 0,
{
    let len: u64 = end - start;
    describe(header, start, end, ranged, #[verifier::truncate] (len as i64))
}

} // verus!
