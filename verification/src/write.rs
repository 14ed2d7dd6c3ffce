//! The write path: what is scattered, what a part list must look like, and which cached
//! copies a mutation must drop.

use hyper::header::HeaderValue;
use hyper::HeaderMap;
use vstd::prelude::*;

use crate::answer::{failure, ErrorCode, Failure};
use crate::chunk::{chunks_in, index_below_count, key_of_chunk, ChunkConfig};
use crate::cluster::{
    append_holders, by_tier, merging_adds_known_nodes_once, merging_reaches_every_member, names,
    with_holders, Holder, NodeId,
};
use crate::headers::{
    all_fields, fields_of, first_value, header_fields, header_value, lossy_text, plain_name,
    text_of,
};
use crate::preflight::strings;
use crate::read::{absent, says_absent};
use crate::scatter::{scatter_verdict, verdict, ScatterVerdict};
use crate::text::{chars_of, push_text, starts_with};

verus! {

/// The kind of bucket behind this node.
#[derive(Clone, Copy, Debug, PartialEq, Eq, Structural)]
pub enum BackendType {
    /// An Express directory bucket.
    Express,
    /// A general-purpose bucket.
    Standard,
}

impl BackendType {
    /// Whether it is an Express directory bucket.
    pub fn is_express(&self) -> (r: bool)
        ensures
            r == (*self is Express),
    {
        matches!(self, BackendType::Express)
    }
}

// ---- part numbers ----

/// Part numbers that are one to their count, each once, in any order.
pub open spec fn consecutive_from_one(numbers: Seq<i32>) -> bool {
    &&& forall|i: int| 0 <= i < numbers.len() ==> 1 <= #[trigger] numbers[i] <= numbers.len()
    &&& numbers.no_duplicates()
}

/// Part numbers that start at one or above and rise strictly. Gaps are allowed.
pub open spec fn ascending_from_one(numbers: Seq<i32>) -> bool {
    &&& numbers.len() > 0 ==> numbers[0] >= 1
    &&& forall|i: int, j: int| 0 <= i < j < numbers.len() ==> numbers[i] < numbers[j]
}

/// Whether a backend accepts these part numbers. An empty list is accepted by none.
pub open spec fn parts_accepted(numbers: Seq<i32>, backend: BackendType) -> bool {
    numbers.len() > 0 && match backend {
        BackendType::Express => consecutive_from_one(numbers),
        BackendType::Standard => ascending_from_one(numbers),
    }
}

/// Whether the part numbers are one to their count, each once.
fn is_consecutive(numbers: &[i32]) -> (r: bool)
    ensures
        r == consecutive_from_one(numbers@),
{
    let n: usize = numbers.len();
    let mut seen: Vec<bool> = Vec::new();
    let mut k: usize = 0;
    while k < n
        invariant
            k <= n,
            seen@.len() == k,
            forall|j: int| 0 <= j < k ==> !#[trigger] seen@[j],
        decreases n - k,
    {
        seen.push(false);
        k += 1;
    }
    let mut i: usize = 0;
    while i < n
        invariant
            i <= n,
            n == numbers@.len(),
            seen@.len() == n,
            forall|j: int| 0 <= j < i ==> 1 <= #[trigger] numbers@[j] <= n,
            forall|a: int, b: int| 0 <= a < b < i ==> numbers@[a] != numbers@[b],
            forall|v: int|
                0 <= v < n ==> (#[trigger] seen@[v] <==> exists|j: int|
                    0 <= j < i && #[trigger] numbers@[j] == v + 1),
        decreases n - i,
    {
        let x: i32 = numbers[i];
        if x < 1 || x as u64 > n as u64 {
            assert(!(1 <= numbers@[i as int] <= numbers@.len()));
            return false;
        }
        let at: usize = (x - 1) as usize;
        if seen[at] {
            proof {
                let j = choose|j: int| 0 <= j < i && #[trigger] numbers@[j] == at + 1;
                assert(numbers@[j] == numbers@[i as int]);
            }
            return false;
        }
        let ghost before = seen@;
        proof {
            assert forall|a: int, b: int| 0 <= a < b < i + 1 implies numbers@[a] != numbers@[b] by {
                if b == i && numbers@[a] == numbers@[b] {
                    assert(before[at as int]);
                }
            }
        }
        seen.set(at, true);
        i += 1;
        proof {
            assert forall|v: int| 0 <= v < n implies (#[trigger] seen@[v] <==> exists|j: int|
                0 <= j < i && #[trigger] numbers@[j] == v + 1) by {
                if v == at {
                    assert(numbers@[i - 1] == v + 1);
                } else {
                    assert(seen@[v] == before[v]);
                    if before[v] {
                        let j = choose|j: int| 0 <= j < i - 1 && #[trigger] numbers@[j] == v + 1;
                        assert(numbers@[j] == v + 1);
                    }
                }
            }
        }
    }
    true
}

/// Whether the part numbers of a completed upload meet the backend's rule.
pub fn part_numbers_ok(numbers: &[i32], backend_type: BackendType) -> (r: bool)
    ensures
        r == parts_accepted(numbers@, backend_type),
{
    if numbers.len() == 0 {
        return false;
    }
    if backend_type.is_express() {
        return is_consecutive(numbers);
    }
    if numbers[0] < 1 {
        return false;
    }
    let mut i: usize = 1;
    while i < numbers.len()
        invariant
            backend_type is Standard,
            1 <= i <= numbers@.len(),
            forall|a: int, b: int| 0 <= a < b < i ==> numbers@[a] < numbers@[b],
        decreases numbers@.len() - i,
    {
        if numbers[i - 1] >= numbers[i] {
            assert(!(numbers@[i - 1] < numbers@[i as int]));
            return false;
        }
        assert forall|a: int, b: int| 0 <= a < b < i + 1 implies numbers@[a] < numbers@[b] by {
            if b == i && a < i - 1 {
                assert(numbers@[a] < numbers@[i - 1]);
            }
        }
        i += 1;
    }
    true
}

/// What is answered to a completion whose part list the backend would reject. A
/// completion without a part list is left to the backend.
pub fn check_parts(parts: Option<&[i32]>, backend_type: BackendType) -> (r: Result<(), Failure>)
    ensures
        r is Ok <==> (parts matches Some(p) ==> parts_accepted(p@, backend_type)),
        r matches Err(f) ==> f.code is InvalidPartOrder && f.message@
            == "part numbers must be ascending (Express: consecutive from 1)"@,
{
    match parts {
        None => Ok(()),
        Some(numbers) => {
            if part_numbers_ok(numbers, backend_type) {
                Ok(())
            } else {
                Err(
                    failure(
                        ErrorCode::InvalidPartOrder,
                        "part numbers must be ascending (Express: consecutive from 1)",
                    ),
                )
            }
        },
    }
}

/// Consecutive part numbers leave no gap: each number from one to their count is there.
pub proof fn consecutive_parts_leave_no_gap(numbers: Seq<i32>, n: int)
    requires
        consecutive_from_one(numbers),
        1 <= n <= numbers.len(),
        numbers.len() <= i32::MAX,
    ensures
        numbers.contains(n as i32),
{
    let held = numbers.to_set();
    let all = vstd::set_lib::set_int_range(1, numbers.len() as int + 1);
    numbers.unique_seq_to_set();
    let as_ints = held.map(|x: i32| x as int);
    assert forall|x: i32, y: i32| held.contains(x) && held.contains(y) && x as int == y as int
        implies x == y by {}
    vstd::set_lib::lemma_int_range(1, numbers.len() as int + 1);
    assert(as_ints.subset_of(all)) by {
        assert forall|v: int| as_ints.contains(v) implies all.contains(v) by {
            let x = choose|x: i32| held.contains(x) && x as int == v;
            let i = choose|i: int| 0 <= i < numbers.len() && numbers[i] == x;
            assert(1 <= numbers[i] <= numbers.len());
        }
    }
    vstd::set_lib::lemma_map_size(held, as_ints, |x: i32| x as int);
    vstd::set_lib::lemma_subset_equality(as_ints, all);
    assert(as_ints.contains(n));
    let x = choose|x: i32| held.contains(x) && x as int == n;
    assert(numbers.contains(x));
}

/// An Express bucket takes part numbers exactly where they are one to their count, each once:
/// in whatever order, but without one that is twice, missing or out of bounds. Any other bucket
/// takes them exactly where each is larger than the one before it and the first at least one.
/// None takes an empty list.
pub proof fn what_part_lists_are_accepted(numbers: Seq<i32>, backend: BackendType)
    ensures
        parts_accepted(numbers, backend) ==> numbers.len() > 0 && (forall|i: int|
            0 <= i < numbers.len() ==> #[trigger] numbers[i] >= 1) && forall|i: int, j: int|
            0 <= i < j < numbers.len() ==> numbers[i] != numbers[j],
        parts_accepted(numbers, BackendType::Standard) <==> numbers.len() > 0 && numbers[0] >= 1
            && forall|i: int, j: int| 0 <= i < j < numbers.len() ==> numbers[i] < numbers[j],
        parts_accepted(numbers, BackendType::Express) <==> numbers.len() > 0 && (forall|i: int|
            0 <= i < numbers.len() ==> 1 <= #[trigger] numbers[i] <= numbers.len()) && forall|
            i: int,
            j: int,
        |
            0 <= i < j < numbers.len() ==> numbers[i] != numbers[j],
{
    if parts_accepted(numbers, backend) && backend is Standard {
        assert forall|i: int| 0 <= i < numbers.len() implies #[trigger] numbers[i] >= 1 by {
            if i > 0 {
                assert(numbers[0] < numbers[i]);
            }
        }
    }
}

/// The parts of a scattered object, one to their count in order, are accepted by either
/// kind of bucket.
pub proof fn scattered_parts_are_accepted(numbers: Seq<i32>, backend: BackendType)
    requires
        numbers.len() > 0,
        forall|i: int| 0 <= i < numbers.len() ==> #[trigger] numbers[i] == i + 1,
    ensures
        parts_accepted(numbers, backend),
{
}

// ---- whether a PUT is scattered ----

/// What a PUT brings that bears on scattering it.
#[derive(Clone, Copy, Debug, PartialEq, Eq)]
pub struct PutFacts {
    /// The length that it declares.
    pub content_length: Option<i64>,
    /// It has a `Content-MD5`.
    pub content_md5: bool,
    /// It has a CRC32C.
    pub checksum_crc32c: bool,
    /// It has a CRC64NVME.
    pub checksum_crc64nvme: bool,
    /// It has a SHA1.
    pub checksum_sha1: bool,
    /// It has a SHA256.
    pub checksum_sha256: bool,
}

/// Whether a PUT brings a digest of its whole body that a scattered upload cannot
/// reproduce. A CRC32 is not among them: it is computed on the way.
pub open spec fn unreproducible(facts: PutFacts) -> bool {
    facts.content_md5 || facts.checksum_crc32c || facts.checksum_crc64nvme || facts.checksum_sha1
        || facts.checksum_sha256
}

/// Whether a PUT brings a digest that a scattered upload cannot reproduce.
pub fn unreproducible_client_checksum(facts: &PutFacts) -> (r: bool)
    ensures
        r == unreproducible(*facts),
{
    facts.content_md5 || facts.checksum_crc32c || facts.checksum_crc64nvme || facts.checksum_sha1
        || facts.checksum_sha256
}

/// Why a PUT is not scattered.
#[derive(Clone, Copy, Debug, PartialEq, Eq, Structural)]
pub enum Decline {
    /// Its length is not known.
    NoContentLength,
    /// It brings a digest that cannot be reproduced.
    ClientChecksum,
    /// The grid or its size says no.
    Verdict(ScatterVerdict),
    /// Its key exists, or may exist.
    Overwrite,
    /// It has no body.
    NoBody,
}

/// The label of a verdict.
pub open spec fn verdict_name(v: ScatterVerdict) -> Seq<char> {
    match v {
        ScatterVerdict::Scatter => "scatter"@,
        ScatterVerdict::TooSmall => "too_small"@,
        ScatterVerdict::TooManyParts { .. } => "too_many_parts"@,
        ScatterVerdict::ChunkBelowPartMinimum => "chunk_below_part_minimum"@,
        ScatterVerdict::ChunkAbovePeerMessageLimit => "chunk_above_peer_message_limit"@,
    }
}

/// The label of a verdict.
pub fn verdict_label(v: ScatterVerdict) -> (r: &'static str)
    ensures
        r@ == verdict_name(v),
{
    match v {
        ScatterVerdict::Scatter => "scatter",
        ScatterVerdict::TooSmall => "too_small",
        ScatterVerdict::TooManyParts { .. } => "too_many_parts",
        ScatterVerdict::ChunkBelowPartMinimum => "chunk_below_part_minimum",
        ScatterVerdict::ChunkAbovePeerMessageLimit => "chunk_above_peer_message_limit",
    }
}

impl Decline {
    /// The label under which the decline is counted.
    pub open spec fn name(self) -> Seq<char> {
        match self {
            Decline::NoContentLength => "no_content_length"@,
            Decline::ClientChecksum => "client_checksum"@,
            Decline::Verdict(v) => verdict_name(v),
            Decline::Overwrite => "overwrite"@,
            Decline::NoBody => "no_body"@,
        }
    }

    /// The label under which the decline is counted.
    pub fn label(&self) -> (r: &'static str)
        ensures
            r@ == self.name(),
    {
        match self {
            Decline::NoContentLength => "no_content_length",
            Decline::ClientChecksum => "client_checksum",
            Decline::Verdict(v) => verdict_label(*v),
            Decline::Overwrite => "overwrite",
            Decline::NoBody => "no_body",
        }
    }
}

/// What the free checks make of a PUT.
#[derive(Clone, Copy, Debug, PartialEq, Eq, Structural)]
pub enum Gate {
    /// This node does not scatter: nothing is counted.
    Off,
    /// It is not scattered, for that reason.
    Declined(Decline),
    /// Ask the backend whether the key exists; the object is that long.
    AskBackend {
        /// The object's length.
        object_len: u64,
    },
}

/// What each decline is counted under, by which one it is.
pub proof fn declines_are_counted_apart(d: Decline, v: ScatterVerdict)
    ensures
        d is NoContentLength ==> d.name() == "no_content_length"@,
        d is ClientChecksum ==> d.name() == "client_checksum"@,
        d is Overwrite ==> d.name() == "overwrite"@,
        d is NoBody ==> d.name() == "no_body"@,
        v is Scatter ==> Decline::Verdict(v).name() == "scatter"@,
        v is TooSmall ==> Decline::Verdict(v).name() == "too_small"@,
        v is TooManyParts ==> Decline::Verdict(v).name() == "too_many_parts"@,
        v is ChunkBelowPartMinimum ==> Decline::Verdict(v).name() == "chunk_below_part_minimum"@,
        v is ChunkAbovePeerMessageLimit ==> Decline::Verdict(v).name()
            == "chunk_above_peer_message_limit"@,
{
}

/// What the free checks make of a PUT, in this order: whether this node scatters, the
/// length, the digests, and the verdict on grid and size.
pub open spec fn gate(
    scatters: bool,
    facts: PutFacts,
    size: nat,
    min_object_size: nat,
    peer_message_limit: nat,
) -> Gate {
    if !scatters {
        Gate::Off
    } else {
        match facts.content_length {
            Some(n) if n >= 0 => if unreproducible(facts) {
                Gate::Declined(Decline::ClientChecksum)
            } else {
                let v = verdict(size, n as nat, min_object_size, peer_message_limit);
                if v is Scatter {
                    Gate::AskBackend { object_len: n as u64 }
                } else {
                    Gate::Declined(Decline::Verdict(v))
                }
            },
            _ => Gate::Declined(Decline::NoContentLength),
        }
    }
}

/// The free checks of a PUT. They come before the backend is asked, so that no small
/// write pays for a path that it cannot take.
pub fn scatter_gate(
    scatters: bool,
    facts: &PutFacts,
    chunk: &ChunkConfig,
    min_object_size: u64,
    peer_message_limit: u64,
) -> (r: Gate)
    ensures
        r == gate(
            scatters,
            *facts,
            chunk.size(),
            min_object_size as nat,
            peer_message_limit as nat,
        ),
{
    if !scatters {
        return Gate::Off;
    }
    let object_len: u64 = match facts.content_length {
        Some(n) => {
            if n < 0 {
                return Gate::Declined(Decline::NoContentLength);
            }
            n as u64
        },
        None => {
            return Gate::Declined(Decline::NoContentLength);
        },
    };
    if unreproducible_client_checksum(facts) {
        return Gate::Declined(Decline::ClientChecksum);
    }
    let v = scatter_verdict(chunk, object_len, min_object_size, peer_message_limit);
    if !v.is_scatter() {
        return Gate::Declined(Decline::Verdict(v));
    }
    Gate::AskBackend { object_len }
}

/// Whether a HEAD says that a key exists. Any failure that is not a clean absence counts
/// as existing, so that the write takes the careful path.
pub fn key_already_exists(head_ok: bool, not_found: bool, code: Option<&str>) -> (r: bool)
    ensures
        r == (head_ok || !absent(
            not_found,
            match code {
                Some(c) => Some(c@),
                None => None,
            },
        )),
{
    head_ok || !says_absent(not_found, code)
}

/// What the backend's answer leads to: `None` to scatter, and otherwise why not.
pub fn after_head(occupied: bool, has_body: bool) -> (r: Option<Decline>)
    ensures
        r == if occupied {
            Some(Decline::Overwrite)
        } else if !has_body {
            Some(Decline::NoBody)
        } else {
            None
        },
{
    if occupied {
        return Some(Decline::Overwrite);
    }
    if !has_body {
        return Some(Decline::NoBody);
    }
    None
}

/// What a scattered write that failed is answered: the client's own digest disagreed
/// with the body, or anything else.
pub fn scatter_failure(digest_mismatch: bool) -> (f: Failure)
    ensures
        digest_mismatch ==> f.code is BadDigest && f.message@
            == "the object's CRC32 does not match the one supplied"@,
        !digest_mismatch ==> f.code is InternalError && f.message@ == "scattered write failed"@,
{
    if digest_mismatch {
        failure(ErrorCode::BadDigest, "the object's CRC32 does not match the one supplied")
    } else {
        failure(ErrorCode::InternalError, "scattered write failed")
    }
}

/// The backend is asked about a key only for an object that is to be scattered; and an
/// object whose digest cannot be reproduced, or whose length is not known, never is.
pub proof fn only_scatterable_puts_ask_the_backend(
    scatters: bool,
    facts: PutFacts,
    size: nat,
    min_object_size: nat,
    peer_message_limit: nat,
)
    ensures
        gate(scatters, facts, size, min_object_size, peer_message_limit) matches Gate::AskBackend {
            object_len,
        } ==> {
            &&& scatters
            &&& facts.content_length == Some(object_len as i64)
            &&& !unreproducible(facts)
            &&& verdict(size, object_len as nat, min_object_size, peer_message_limit) is Scatter
        },
{
}

/// A write that brings any digest of its body but a CRC32 is never scattered; and one that
/// brings none, and whose length is known, is kept from it by the grid and its size alone. So
/// each of the five digests tells by itself.
pub proof fn any_digest_keeps_a_put_from_being_scattered(
    facts: PutFacts,
    size: nat,
    min_object_size: nat,
    peer_message_limit: nat,
)
    ensures
        facts.content_md5 || facts.checksum_crc32c || facts.checksum_crc64nvme
            || facts.checksum_sha1 || facts.checksum_sha256 ==> !(gate(
            true,
            facts,
            size,
            min_object_size,
            peer_message_limit,
        ) is AskBackend),
        (facts.content_length matches Some(n) && n >= 0) && (facts.content_md5
            || facts.checksum_crc32c || facts.checksum_crc64nvme || facts.checksum_sha1
            || facts.checksum_sha256) ==> gate(
            true,
            facts,
            size,
            min_object_size,
            peer_message_limit,
        ) == Gate::Declined(Decline::ClientChecksum),
        !facts.content_md5 && !facts.checksum_crc32c && !facts.checksum_crc64nvme
            && !facts.checksum_sha1 && !facts.checksum_sha256 ==> gate(
            true,
            facts,
            size,
            min_object_size,
            peer_message_limit,
        ) != Gate::Declined(Decline::ClientChecksum),
{
}

/// A write is scattered, once the backend knows no such key, exactly where this node scatters,
/// its length is known, it brings no digest but a CRC32, a chunk is no smaller than the least
/// part and no larger than a peer message, the object is large enough, and no more chunks than
/// an upload may have parts cover it.
pub proof fn what_makes_a_put_scatterable(
    scatters: bool,
    facts: PutFacts,
    size: nat,
    min_object_size: nat,
    peer_message_limit: nat,
)
    requires
        size > 0,
    ensures
        gate(scatters, facts, size, min_object_size, peer_message_limit) is AskBackend <==> {
            &&& scatters
            &&& !facts.content_md5 && !facts.checksum_crc32c && !facts.checksum_crc64nvme
                && !facts.checksum_sha1 && !facts.checksum_sha256
            &&& size >= 5 * 1024 * 1024
            &&& size <= peer_message_limit
            &&& facts.content_length matches Some(n) && n >= 0 && n >= min_object_size && n <= 10_000
                * size
        },
        gate(scatters, facts, size, min_object_size, peer_message_limit) matches Gate::AskBackend {
            object_len,
        } ==> facts.content_length == Some(object_len as i64) && object_len <= i64::MAX,
        gate(scatters, facts, size, min_object_size, peer_message_limit) is Off <==> !scatters,
{
    if let Some(n) = facts.content_length {
        if n >= 0 {
            index_below_count(size, 10_000, n as nat);
        }
    }
}

/// The `Content-MD5` that is forwarded: an Express bucket rejects the header, so it is
/// dropped there, and any other bucket validates it.
pub fn forwarded_md5(backend_type: BackendType, content_md5: Option<String>) -> (r: Option<String>)
    ensures
        r == if backend_type is Express {
            None
        } else {
            content_md5
        },
{
    if backend_type.is_express() {
        None
    } else {
        content_md5
    }
}

// ---- what a mutation drops ----

/// How the length of an overwritten object is learned.
#[derive(Clone, Copy, Debug, PartialEq, Eq)]
pub enum LengthStep {
    /// It is known, or known not to matter.
    Known(Option<u64>),
    /// The backend must be asked.
    AskBackend,
}

/// How the length of an overwritten object is learned: a cached header tells it; a node
/// on its own that has none has cached no chunk either; a node of a cluster asks.
pub fn length_step(cached_len: Option<u64>, clustered: bool) -> (r: LengthStep)
    ensures
        cached_len is Some ==> r == LengthStep::Known(cached_len),
        cached_len is None && !clustered ==> r == LengthStep::Known(None),
        cached_len is None && clustered ==> r is AskBackend,
{
    match cached_len {
        Some(len) => LengthStep::Known(Some(len)),
        None => if clustered {
            LengthStep::AskBackend
        } else {
            LengthStep::Known(None)
        },
    }
}

/// The length that a HEAD tells, where it tells one.
pub fn told_length(content_length: Option<i64>) -> (r: Option<u64>)
    ensures
        r is Some <==> (content_length matches Some(n) && n >= 0),
        r matches Some(n) ==> content_length == Some(n as i64) && n <= i64::MAX,
{
    match content_length {
        Some(n) => if n < 0 {
            None
        } else {
            Some(n as u64)
        },
        None => None,
    }
}

/// The keys that a mutation drops: the header's, and those of all chunks where the length
/// is known.
pub open spec fn dropped_keys(object_key: Seq<char>, size: nat, object_len: Option<u64>) -> Seq<
    Seq<char>,
> {
    seq![object_key] + Seq::new(
        match object_len {
            Some(len) => chunks_in(size, len as nat),
            None => 0,
        },
        |i: int| key_of_chunk(object_key, size, i as nat),
    )
}

/// The keys that a mutation drops, in order.
pub fn invalidation_keys(chunk: &ChunkConfig, object_key: &str, object_len: Option<u64>) -> (r: Vec<
    String,
>)
    ensures
        strings(r@) == dropped_keys(object_key@, chunk.size(), object_len),
{
    let mut out: Vec<String> = Vec::new();
    out.push(object_key.to_owned());
    let count: u64 = match object_len {
        Some(len) => chunk.chunk_count(len),
        None => 0,
    };
    let ghost want = dropped_keys(object_key@, chunk.size(), object_len);
    let mut index: u64 = 0;
    while index < count
        invariant
            index <= count,
            count == want.len() - 1,
            want == dropped_keys(object_key@, chunk.size(), object_len),
            out@.len() == index + 1,
            forall|i: int| 0 <= i < out@.len() ==> (#[trigger] out@[i])@ == want[i],
        decreases count - index,
    {
        out.push(chunk.chunk_key(object_key, index));
        index += 1;
    }
    assert(strings(out@) =~= want);
    out
}

/// A mutation drops every chunk that a read of the object could ask for: the key of each
/// chunk that covers any byte of it is among those dropped, and so is its header.
pub proof fn no_reachable_chunk_is_left(
    object_key: Seq<char>,
    size: nat,
    object_len: u64,
    index: nat,
)
    requires
        size > 0,
        index * size < object_len,
    ensures
        dropped_keys(object_key, size, Some(object_len)).contains(object_key),
        dropped_keys(object_key, size, Some(object_len)).contains(
            key_of_chunk(object_key, size, index),
        ),
{
    index_below_count(size, index, object_len as nat);
    let all = dropped_keys(object_key, size, Some(object_len));
    assert(all[0] == object_key);
    assert(all[index as int + 1] == key_of_chunk(object_key, size, index));
}

/// A mutation drops nothing but the object's own keys: the first is its header's, and each other
/// that of one of its chunks, once. Without a known length the header's key goes alone.
pub proof fn only_the_objects_keys_are_dropped(
    object_key: Seq<char>,
    size: nat,
    object_len: Option<u64>,
    i: int,
)
    requires
        size > 0,
        0 <= i < dropped_keys(object_key, size, object_len).len(),
    ensures
        dropped_keys(object_key, size, object_len)[0] == object_key,
        i > 0 ==> object_len is Some && (i - 1) * size < object_len->0 && dropped_keys(
            object_key,
            size,
            object_len,
        )[i] == key_of_chunk(object_key, size, (i - 1) as nat),
        object_len is None ==> dropped_keys(object_key, size, object_len).len() == 1,
{
    if i > 0 {
        index_below_count(size, (i - 1) as nat, object_len->0 as nat);
    }
}

/// The nodes that can hold a key: its homes, and the holders that the home's directory
/// lists. Where the lookup told nothing, the homes alone.
pub fn invalidation_targets(
    homes: Vec<NodeId>,
    local_node: &str,
    members: &[NodeId],
    sharers: Option<Vec<Holder>>,
) -> (r: Vec<NodeId>)
    ensures
        names(r@) == match sharers {
            Some(holders) => if homes@.len() > 0 {
                with_holders(local_node@, names(members@), by_tier(holders@), names(homes@))
            } else {
                names(homes@)
            },
            None => names(homes@),
        },
{
    let mut targets = homes;
    if targets.len() > 0 {
        match sharers {
            Some(holders) => append_holders(local_node, members, holders, &mut targets),
            None => {},
        }
    }
    targets
}

/// The nodes to send an invalidation to: the targets without this node, which has
/// dropped the key already.
pub fn remote_targets(targets: Vec<NodeId>, local_node: &str) -> (r: Vec<NodeId>)
    ensures
        names(r@) == names(targets@).filter(|n: Seq<char>| n != local_node@),
{
    let ghost all = names(targets@);
    let ghost keep = |n: Seq<char>| n != local_node@;
    let ghost given = targets@;
    let mut out: Vec<NodeId> = Vec::new();
    assert(names(out@) =~= all.take(0).filter(keep)) by {
        reveal(Seq::filter);
    }
    for t in it: targets
        invariant
            it.seq() == given,
            all == names(given),
            keep == (|n: Seq<char>| n != local_node@),
            names(out@) == all.take(it.index()).filter(keep),
    {
        proof {
            reveal(Seq::filter);
            let k = it.index();
            assert(all.take(k + 1).drop_last() =~= all.take(k));
            assert(all.take(k + 1).last() == t@);
        }
        if !t.name().eq(local_node) {
            let ghost before = out@;
            let ghost name = t@;
            out.push(t);
            assert(names(out@) =~= names(before).push(name));
        }
    }
    assert(all.take(all.len() as int) =~= all);
    out
}

/// An invalidation reaches every node that can hold the key: each home, and each listed
/// holder that the ring knows, is told, unless it is the writing node itself.
pub proof fn every_possible_holder_is_told(
    homes: Seq<Seq<char>>,
    local: Seq<char>,
    members: Seq<Seq<char>>,
    holders: Seq<Holder>,
    name: Seq<char>,
)
    requires
        name != local,
        homes.contains(name) || (members.contains(name) && exists|i: int|
            0 <= i < holders.len() && (#[trigger] holders[i]).node@ == name),
    ensures
        with_holders(local, members, by_tier(holders), homes).filter(
            |n: Seq<char>| n != local,
        ).contains(name),
{
    let sorted = by_tier(holders);
    let targets = with_holders(local, members, sorted, homes);
    let keep = |n: Seq<char>| n != local;
    merging_adds_known_nodes_once(local, members, sorted, homes);
    if homes.contains(name) {
        let i = choose|i: int| 0 <= i < homes.len() && homes[i] == name;
        assert(targets.take(homes.len() as int)[i] == name);
        assert(targets[i] == name);
        targets.lemma_filter_contains(keep, i);
    } else {
        let i = choose|i: int| 0 <= i < holders.len() && (#[trigger] holders[i]).node@ == name;
        let dram = |h: Holder| h.tier is Dram;
        let nvme = |h: Holder| h.tier is Nvme;
        let first = holders.filter(dram);
        let second = holders.filter(nvme);
        let k = if dram(holders[i]) {
            holders.lemma_filter_contains(dram, i);
            choose|k: int| 0 <= k < first.len() && first[k] == holders[i]
        } else {
            holders.lemma_filter_contains(nvme, i);
            first.len() + choose|k: int| 0 <= k < second.len() && second[k] == holders[i]
        };
        assert(sorted[k] == holders[i]);
        merging_reaches_every_member(local, members, sorted, homes, k);
        let t = choose|t: int| 0 <= t < targets.len() && targets[t] == name;
        targets.lemma_filter_contains(keep, t);
    }
}

// ---- how a PUT was framed ----

/// The headers that tell how a PUT was framed. None of them carries a secret.
pub open spec fn framing_names() -> Seq<Seq<char>> {
    seq![
        "content-length"@,
        "content-encoding"@,
        "content-md5"@,
        "x-amz-decoded-content-length"@,
        "x-amz-content-sha256"@,
        "x-amz-sdk-checksum-algorithm"@,
        "x-amz-trailer"@,
    ]
}

/// What the names of the per-algorithm checksum headers start with.
pub const CHECKSUM_HEADER_PREFIX: &'static str = "x-amz-checksum-";

/// Whether a header tells how a PUT was framed.
pub open spec fn is_framing(name: Seq<char>) -> bool {
    framing_names().contains(name) || CHECKSUM_HEADER_PREFIX@.is_prefix_of(name)
}

/// One of the headers that tell how a PUT was framed.
fn framing_name(i: usize) -> (r: &'static str)
    requires
        i < 7,
    ensures
        r@ == framing_names()[i as int],
        plain_name(r@),
{
    proof {
        reveal_strlit("content-length");
        reveal_strlit("content-encoding");
        reveal_strlit("content-md5");
        reveal_strlit("x-amz-decoded-content-length");
        reveal_strlit("x-amz-content-sha256");
        reveal_strlit("x-amz-sdk-checksum-algorithm");
        reveal_strlit("x-amz-trailer");
    }
    match i {
        0 => "content-length",
        1 => "content-encoding",
        2 => "content-md5",
        3 => "x-amz-decoded-content-length",
        4 => "x-amz-content-sha256",
        5 => "x-amz-sdk-checksum-algorithm",
        _ => "x-amz-trailer",
    }
}

/// The named framing headers that are there, in the order of the first `n` names: each
/// with its first value.
pub open spec fn named_framing(fields: Seq<(Seq<char>, Seq<u8>)>, n: int) -> Seq<
    (Seq<char>, Seq<u8>),
>
    decreases n,
{
    if n <= 0 {
        Seq::empty()
    } else {
        let before = named_framing(fields, n - 1);
        match first_value(fields, framing_names()[n - 1]) {
            Some(v) => before.push((framing_names()[n - 1], v)),
            None => before,
        }
    }
}

/// The framing headers of a PUT: the named ones, then every checksum header.
pub open spec fn framing(fields: Seq<(Seq<char>, Seq<u8>)>) -> Seq<(Seq<char>, Seq<u8>)> {
    named_framing(fields, 7) + fields.filter(
        |f: (Seq<char>, Seq<u8>)| CHECKSUM_HEADER_PREFIX@.is_prefix_of(f.0),
    )
}

/// Pairs written `name=value`, one blank between each two.
pub open spec fn pair_line(pairs: Seq<(Seq<char>, Seq<char>)>) -> Seq<char>
    decreases pairs.len(),
{
    if pairs.len() == 0 {
        Seq::empty()
    } else if pairs.len() == 1 {
        pairs[0].0 + "="@ + pairs[0].1
    } else {
        pair_line(pairs.drop_last()) + " "@ + (pairs.last().0 + "="@ + pairs.last().1)
    }
}

/// What a list of pairs reads.
pub open spec fn pairs_of(pairs: Seq<(String, String)>) -> Seq<(Seq<char>, Seq<char>)> {
    pairs.map_values(|p: (String, String)| (p.0@, p.1@))
}

/// Pairs written `name=value`, one blank between each two.
pub fn write_pairs(pairs: &[(String, String)]) -> (r: String)
    ensures
        r@ == pair_line(pairs_of(pairs@)),
{
    let ghost all = pairs_of(pairs@);
    let mut out = String::new();
    let mut i: usize = 0;
    while i < pairs.len()
        invariant
            i <= pairs@.len(),
            all == pairs_of(pairs@),
            out@ == pair_line(all.take(i as int)),
        decreases pairs@.len() - i,
    {
        let ghost before = out@;
        proof {
            assert(all.take(i + 1).drop_last() =~= all.take(i as int));
            assert(all.take(i + 1).last() == all[i as int]);
        }
        if i > 0 {
            push_text(&mut out, " ");
        }
        push_text(&mut out, pairs[i].0.as_str());
        push_text(&mut out, "=");
        push_text(&mut out, pairs[i].1.as_str());
        proof {
            let one = all[i as int].0 + "="@ + all[i as int].1;
            if i > 0 {
                assert(out@ =~= before + " "@ + one);
            } else {
                assert(out@ =~= one);
            }
        }
        i += 1;
    }
    assert(all.take(i as int) =~= all);
    out
}

/// Fields with their values as text.
pub open spec fn as_text(fields: Seq<(Seq<char>, Seq<u8>)>) -> Seq<(Seq<char>, Seq<char>)> {
    fields.map_values(|f: (Seq<char>, Seq<u8>)| (f.0, lossy_text(f.1)))
}

/// The framing headers of a PUT, by name and text.
fn framing_pairs(headers: &HeaderMap<HeaderValue>) -> (r: Vec<(String, String)>)
    ensures
        pairs_of(r@) == as_text(framing(header_fields(*headers))),
{
    let ghost fields = header_fields(*headers);
    let mut out: Vec<(String, String)> = Vec::new();
    let mut i: usize = 0;
    assert(pairs_of(out@) =~= as_text(named_framing(fields, 0)));
    while i < 7
        invariant
            i <= 7,
            fields == header_fields(*headers),
            pairs_of(out@) == as_text(named_framing(fields, i as int)),
        decreases 7 - i,
    {
        let name = framing_name(i);
        match header_value(headers, name) {
            Some(value) => {
                let ghost before = out@;
                let text = text_of(value.as_slice());
                let ghost shown = text@;
                out.push((name.to_owned(), text));
                assert(pairs_of(out@) =~= pairs_of(before).push((name@, shown)));
                assert(as_text(named_framing(fields, i + 1)) =~= as_text(
                    named_framing(fields, i as int),
                ).push((name@, shown)));
            },
            None => {},
        }
        i += 1;
    }
    let ghost named = out@;
    let rest = all_fields(headers);
    let prefix = chars_of(CHECKSUM_HEADER_PREFIX);
    let ghost is_checksum = |f: (Seq<char>, Seq<u8>)| CHECKSUM_HEADER_PREFIX@.is_prefix_of(f.0);
    let ghost given = rest@;
    assert(fields.take(0).filter(is_checksum) =~= Seq::empty()) by {
        reveal(Seq::filter);
    }
    assert(pairs_of(out@) =~= pairs_of(named) + as_text(fields.take(0).filter(is_checksum)));
    for f in it: rest
        invariant
            it.seq() == given,
            fields == fields_of(given),
            prefix@ == CHECKSUM_HEADER_PREFIX@,
            is_checksum == (|f: (Seq<char>, Seq<u8>)| CHECKSUM_HEADER_PREFIX@.is_prefix_of(f.0)),
            pairs_of(out@) == pairs_of(named) + as_text(
                fields.take(it.index()).filter(is_checksum),
            ),
    {
        let ghost k = it.index();
        proof {
            reveal(Seq::filter);
            assert(fields.take(k + 1).drop_last() =~= fields.take(k));
            assert(fields.take(k + 1).last() == (f.0@, f.1@));
        }
        let chars = chars_of(f.0.as_str());
        if starts_with(chars.as_slice(), prefix.as_slice()) {
            let ghost before = out@;
            let ghost name = f.0@;
            let text = text_of(f.1.as_slice());
            let ghost shown = text@;
            out.push((f.0, text));
            assert(pairs_of(out@) =~= pairs_of(before).push((name, shown)));
            assert(as_text(fields.take(k + 1).filter(is_checksum)) =~= as_text(
                fields.take(k).filter(is_checksum),
            ).push((name, shown)));
        }
    }
    assert(fields.take(fields.len() as int) =~= fields);
    assert(pairs_of(out@) =~= as_text(framing(fields)));
    out
}

/// A PUT's framing headers as one line. An absent header is left out.
pub fn put_framing(headers: &HeaderMap<HeaderValue>) -> (r: String)
    ensures
        r@ == pair_line(as_text(framing(header_fields(*headers)))),
{
    let pairs = framing_pairs(headers);
    write_pairs(pairs.as_slice())
}

/// Dropping fields that are no framing changes no first value of a framing header.
proof fn lemma_first_value_of_framing(fields: Seq<(Seq<char>, Seq<u8>)>, name: Seq<char>)
    requires
        is_framing(name),
    ensures
        first_value(fields.filter(|f: (Seq<char>, Seq<u8>)| is_framing(f.0)), name) == first_value(
            fields,
            name,
        ),
    decreases fields.len(),
{
    let keep = |f: (Seq<char>, Seq<u8>)| is_framing(f.0);
    if fields.len() > 0 {
        let rest = fields.skip(1);
        lemma_first_value_of_framing(rest, name);
        lemma_filter_front(fields, keep);
        if keep(fields[0]) {
            let kept = seq![fields[0]] + rest.filter(keep);
            assert(kept.skip(1) =~= rest.filter(keep));
            assert(fields.filter(keep) == kept);
        }
    } else {
        assert(fields.filter(keep) =~= Seq::empty()) by {
            reveal(Seq::filter);
        }
    }
}

/// A filter keeps or drops the first item, and filters the rest.
proof fn lemma_filter_front<T>(s: Seq<T>, p: spec_fn(T) -> bool)
    requires
        s.len() > 0,
    ensures
        s.filter(p) == if p(s[0]) {
            seq![s[0]] + s.skip(1).filter(p)
        } else {
            s.skip(1).filter(p)
        },
    decreases s.len(),
{
    reveal(Seq::filter);
    if s.len() == 1 {
        assert(s.drop_last().filter(p) =~= Seq::empty());
        assert(s.skip(1).filter(p) =~= Seq::empty());
        assert(s.filter(p) =~= if p(s[0]) {
            seq![s[0]] + s.skip(1).filter(p)
        } else {
            s.skip(1).filter(p)
        });
    } else {
        lemma_filter_front(s.drop_last(), p);
        assert(s.skip(1).drop_last() =~= s.drop_last().skip(1));
        assert(s.filter(p) =~= if p(s[0]) {
            seq![s[0]] + s.skip(1).filter(p)
        } else {
            s.skip(1).filter(p)
        });
    }
}

/// Filtering twice, the second time more narrowly, is filtering narrowly.
proof fn lemma_filter_twice<T>(s: Seq<T>, wide: spec_fn(T) -> bool, narrow: spec_fn(T) -> bool)
    requires
        forall|x: T| #[trigger] narrow(x) ==> wide(x),
    ensures
        s.filter(wide).filter(narrow) == s.filter(narrow),
    decreases s.len(),
{
    reveal(Seq::filter);
    if s.len() > 0 {
        lemma_filter_twice(s.drop_last(), wide, narrow);
        if wide(s.last()) {
            assert(s.filter(wide).drop_last() =~= s.drop_last().filter(wide));
        }
    }
}

/// The framing line tells of framing headers alone: without all other headers, such as
/// an authorization or a session token, it reads the same.
pub proof fn framing_tells_no_other_header(fields: Seq<(Seq<char>, Seq<u8>)>)
    ensures
        framing(fields.filter(|f: (Seq<char>, Seq<u8>)| is_framing(f.0))) == framing(fields),
        forall|i: int| 0 <= i < framing(fields).len() ==> is_framing((#[trigger] framing(fields)[i]).0),
{
    let keep = |f: (Seq<char>, Seq<u8>)| is_framing(f.0);
    let is_checksum = |f: (Seq<char>, Seq<u8>)| CHECKSUM_HEADER_PREFIX@.is_prefix_of(f.0);
    let kept = fields.filter(keep);
    lemma_filter_twice(fields, keep, is_checksum);
    lemma_named_framing(fields, 7);
    let named = named_framing(fields, 7);
    let sums = fields.filter(is_checksum);
    assert forall|i: int| 0 <= i < framing(fields).len() implies is_framing(
        (#[trigger] framing(fields)[i]).0,
    ) by {
        if i < named.len() {
            assert(framing(fields)[i] == named[i]);
        } else {
            assert(framing(fields)[i] == sums[i - named.len()]);
            fields.lemma_filter_pred(is_checksum, i - named.len());
        }
    }
}

/// What the first `n` names tell.
proof fn lemma_named_framing_tells(fields: Seq<(Seq<char>, Seq<u8>)>, n: int, k: int)
    requires
        0 <= k < n <= 7,
        first_value(fields, framing_names()[k]) is Some,
    ensures
        named_framing(fields, n).contains(
            (framing_names()[k], first_value(fields, framing_names()[k])->0),
        ),
    decreases n,
{
    let one = (framing_names()[k], first_value(fields, framing_names()[k])->0);
    let before = named_framing(fields, n - 1);
    let after = named_framing(fields, n);
    if k < n - 1 {
        lemma_named_framing_tells(fields, n - 1, k);
        let i = choose|i: int| 0 <= i < before.len() && before[i] == one;
        assert(after[i] == one);
    } else {
        assert(after[after.len() - 1] == one);
    }
}

/// The framing line tells every framing header that is there: each of the seven named ones with
/// its first value, and every checksum header.
pub proof fn framing_tells_every_framing_header(fields: Seq<(Seq<char>, Seq<u8>)>, i: int)
    requires
        0 <= i < fields.len(),
    ensures
        (fields[i].0 == "content-length"@ || fields[i].0 == "content-encoding"@ || fields[i].0
            == "content-md5"@ || fields[i].0 == "x-amz-decoded-content-length"@ || fields[i].0
            == "x-amz-content-sha256"@ || fields[i].0 == "x-amz-sdk-checksum-algorithm"@
            || fields[i].0 == "x-amz-trailer"@) && (forall|j: int|
            0 <= j < i ==> (#[trigger] fields[j]).0 != fields[i].0) ==> framing(fields).contains(
            fields[i],
        ),
        "x-amz-checksum-"@.is_prefix_of(fields[i].0) ==> framing(fields).contains(fields[i]),
{
    let is_checksum = |f: (Seq<char>, Seq<u8>)| CHECKSUM_HEADER_PREFIX@.is_prefix_of(f.0);
    let named = named_framing(fields, 7);
    let sums = fields.filter(is_checksum);
    let all = framing(fields);
    if "x-amz-checksum-"@.is_prefix_of(fields[i].0) {
        fields.lemma_filter_contains(is_checksum, i);
        let k = choose|k: int| 0 <= k < sums.len() && sums[k] == fields[i];
        assert(all[named.len() + k] == fields[i]);
    }
    let names = framing_names();
    if forall|j: int| 0 <= j < i ==> (#[trigger] fields[j]).0 != fields[i].0 {
        lemma_first_value(fields, i);
        assert forall|k: int| 0 <= k < 7 && #[trigger] names[k] == fields[i].0 implies all.contains(
            fields[i],
        ) by {
            lemma_named_framing_tells(fields, 7, k);
            let at = choose|at: int| 0 <= at < named.len() && named[at] == fields[i];
            assert(all[at] == fields[i]);
        }
        assert(names[0] == "content-length"@ && names[1] == "content-encoding"@);
        assert(names[2] == "content-md5"@ && names[3] == "x-amz-decoded-content-length"@);
        assert(names[4] == "x-amz-content-sha256"@);
        assert(names[5] == "x-amz-sdk-checksum-algorithm"@ && names[6] == "x-amz-trailer"@);
    }
}

/// The first field of its name has the first value.
proof fn lemma_first_value(fields: Seq<(Seq<char>, Seq<u8>)>, i: int)
    requires
        0 <= i < fields.len(),
        forall|j: int| 0 <= j < i ==> (#[trigger] fields[j]).0 != fields[i].0,
    ensures
        first_value(fields, fields[i].0) == Some(fields[i].1),
    decreases fields.len(),
{
    if i > 0 {
        let rest = fields.skip(1);
        assert(fields[0].0 != fields[i].0);
        assert forall|j: int| 0 <= j < i - 1 implies (#[trigger] rest[j]).0 != rest[i - 1].0 by {
            assert(rest[j] == fields[j + 1]);
        }
        lemma_first_value(rest, i - 1);
    }
}

/// A line of pairs is those of its front, a blank, and those of its back; and one pair is its
/// name, an equals sign and its value.
pub proof fn a_line_divides_pairs_by_blanks(
    front: Seq<(Seq<char>, Seq<char>)>,
    back: Seq<(Seq<char>, Seq<char>)>,
    one: (Seq<char>, Seq<char>),
)
    ensures
        pair_line(seq![one]) == one.0 + "="@ + one.1,
        front.len() > 0 && back.len() > 0 ==> pair_line(front + back) == pair_line(front) + " "@
            + pair_line(back),
    decreases back.len(),
{
    if front.len() > 0 && back.len() > 0 {
        let all = front + back;
        assert(all.last() == back.last());
        assert(all.drop_last() =~= front + back.drop_last());
        if back.len() == 1 {
            assert(front + back.drop_last() =~= front);
            assert(back[0] == back.last());
        } else {
            a_line_divides_pairs_by_blanks(front, back.drop_last(), one);
            assert(pair_line(all) =~= pair_line(front) + " "@ + pair_line(back));
        }
    }
}

/// The named framing headers are framing headers, and need no other.
proof fn lemma_named_framing(fields: Seq<(Seq<char>, Seq<u8>)>, n: int)
    requires
        0 <= n <= 7,
    ensures
        named_framing(fields.filter(|f: (Seq<char>, Seq<u8>)| is_framing(f.0)), n)
            == named_framing(fields, n),
        forall|i: int|
            0 <= i < named_framing(fields, n).len() ==> is_framing(
                (#[trigger] named_framing(fields, n)[i]).0,
            ),
    decreases n,
{
    if n > 0 {
        let name = framing_names()[n - 1];
        assert(framing_names().contains(name));
        lemma_first_value_of_framing(fields, name);
        lemma_named_framing(fields, n - 1);
        let before = named_framing(fields, n - 1);
        let after = named_framing(fields, n);
        assert forall|i: int| 0 <= i < after.len() implies is_framing((#[trigger] after[i]).0) by {
            if i < before.len() {
                assert(after[i] == before[i]);
            }
        }
    }
}

/// Pairs and fields are read one by one, each name as it is and each value as its text.
pub proof fn pairs_are_read_one_by_one(
    pairs: Seq<(String, String)>,
    fields: Seq<(Seq<char>, Seq<u8>)>,
    i: int,
)
    ensures
        pairs_of(pairs).len() == pairs.len(),
        0 <= i < pairs.len() ==> pairs_of(pairs)[i] == (pairs[i].0@, pairs[i].1@),
        as_text(fields).len() == fields.len(),
        0 <= i < fields.len() ==> as_text(fields)[i] == (fields[i].0, lossy_text(fields[i].1)),
{
}

} // verus!
