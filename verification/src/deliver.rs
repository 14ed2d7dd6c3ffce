//! Delivery into memory that the client supplied: what was asked for, what landed, and
//! the answer.
//!
//! The answer is all or nothing. A checksum covers the windows that landed, so a window
//! with a hole in it would verify: one window that cannot be placed therefore turns the
//! whole request into a read with a body.

use hyper::header::HeaderValue;
use hyper::HeaderMap;
use vstd::prelude::*;

use crate::answer::{describe, describes, failure, ErrorCode, Failure, GetOutput, ObjectHeader};
use crate::headers::{first_value, header_fields, header_value, lossy_text, plain_name, text_of};
use crate::place::{DeliveryDigest, Placed};
use crate::preflight::GET_ENDPOINTS_HEADER;
use crate::target::ClientMemory;
use crate::text::{decimal, push_decimal};

verus! {

/// The request header that names the client's memory.
pub const TARGET_HEADER: &'static str = "x-pacer-target";

/// The response header whose presence says that the bytes were delivered.
pub const DELIVERED_HEADER: &'static str = "x-pacer-delivered";

/// The response header with the checksum of the delivered bytes.
pub const CHECKSUM_HEADER: &'static str = "x-pacer-checksum";

/// The headers of a delivery, as clients write and read them.
pub proof fn the_headers_of_a_delivery()
    ensures
        TARGET_HEADER@ == "x-pacer-target"@,
        DELIVERED_HEADER@ == "x-pacer-delivered"@,
        CHECKSUM_HEADER@ == "x-pacer-checksum"@,
        GET_ENDPOINTS_HEADER@ == "x-pacer-get-endpoints"@,
{
}

// ---- what was asked for ----

/// The text of the first field of that name, where delivery is on.
pub open spec fn asked(
    enabled: bool,
    fields: Seq<(Seq<char>, Seq<u8>)>,
    name: Seq<char>,
) -> Option<Seq<char>> {
    if enabled {
        match first_value(fields, name) {
            Some(v) => Some(lossy_text(v)),
            None => None,
        }
    } else {
        None
    }
}

fn asked_text(enabled: bool, headers: &HeaderMap<HeaderValue>, name: &str) -> (r: Option<String>)
    requires
        plain_name(name@),
    ensures
        match r {
            Some(s) => asked(enabled, header_fields(*headers), name@) == Some(s@),
            None => asked(enabled, header_fields(*headers), name@) is None,
        },
{
    if !enabled {
        return None;
    }
    match header_value(headers, name) {
        Some(v) => Some(text_of(v.as_slice())),
        None => None,
    }
}

/// The descriptor of the client's memory, or `None` where delivery is off or the request
/// names none. Bytes that are no text come back with replacement characters: they then
/// fail to parse, and the client is told.
pub fn requested_target(enabled: bool, headers: &HeaderMap<HeaderValue>) -> (r: Option<String>)
    ensures
        match r {
            Some(s) => asked(enabled, header_fields(*headers), TARGET_HEADER@) == Some(s@),
            None => asked(enabled, header_fields(*headers), TARGET_HEADER@) is None,
        },
{
    proof {
        reveal_strlit("x-pacer-target");
    }
    asked_text(enabled, headers, TARGET_HEADER)
}

/// The range whose holders the request wants named, or `None` where delivery is off or it
/// does not ask.
pub fn requested_endpoints(enabled: bool, headers: &HeaderMap<HeaderValue>) -> (r: Option<String>)
    ensures
        match r {
            Some(s) => asked(enabled, header_fields(*headers), GET_ENDPOINTS_HEADER@) == Some(s@),
            None => asked(enabled, header_fields(*headers), GET_ENDPOINTS_HEADER@) is None,
        },
{
    proof {
        reveal_strlit("x-pacer-get-endpoints");
    }
    asked_text(enabled, headers, GET_ENDPOINTS_HEADER)
}

/// Nothing is asked for where delivery is off. Where it is on, the first field of the name tells
/// what is asked for, whatever stands behind it, and without one nothing is.
pub proof fn the_first_field_is_asked_for(
    fields: Seq<(Seq<char>, Seq<u8>)>,
    name: Seq<char>,
    i: int,
)
    ensures
        asked(false, fields, name) is None,
        0 <= i < fields.len() && fields[i].0 == name && (forall|j: int|
            0 <= j < i ==> (#[trigger] fields[j]).0 != name) ==> asked(true, fields, name) == Some(
            lossy_text(fields[i].1),
        ),
        (forall|j: int| 0 <= j < fields.len() ==> (#[trigger] fields[j]).0 != name) ==> asked(
            true,
            fields,
            name,
        ) is None,
    decreases fields.len(),
{
    if fields.len() > 0 && fields[0].0 != name {
        let rest = fields.skip(1);
        the_first_field_is_asked_for(rest, name, i - 1);
        assert forall|j: int| 0 <= j < rest.len() implies rest[j] == fields[j + 1] by {}
    }
}

// ---- what landed ----

/// A window that landed.
#[derive(Clone, Copy, Debug, PartialEq, Eq, Structural)]
pub struct DeliveredWindow {
    /// Where in the client's window it begins.
    pub dst_at: usize,
    /// How many bytes it has.
    pub bytes: u64,
    /// Its checksum, unless the client wants none.
    pub digest: Option<DeliveryDigest>,
}

/// Where the checksum of a placed window comes from.
#[derive(Clone, Copy, Debug, PartialEq, Eq, Structural)]
pub enum DigestStep {
    /// There is none.
    Without,
    /// Placing the window made it.
    Made(DeliveryDigest),
    /// It is read back from the client's memory.
    ReadBack,
}

/// Where the checksum of a placed window comes from. None is taken where the client wants
/// none; one that placing made is kept; and a window that this node holds is read back.
pub fn digest_step(checksum: bool, placed: &Placed, memory: &ClientMemory) -> (r: DigestStep)
    ensures
        r == if !checksum {
            DigestStep::Without
        } else {
            match placed.digest {
                Some(d) => DigestStep::Made(d),
                None => if *memory is Mapped {
                    DigestStep::ReadBack
                } else {
                    DigestStep::Without
                },
            }
        },
{
    if !checksum {
        return DigestStep::Without;
    }
    match placed.digest {
        Some(d) => DigestStep::Made(d),
        None => if memory.is_mapped() {
            DigestStep::ReadBack
        } else {
            DigestStep::Without
        },
    }
}

/// The checksum that was read back, or the error of a read that failed.
pub fn digest_delivered(read: Option<DeliveryDigest>) -> (r: Result<DeliveryDigest, Failure>)
    ensures
        match (read, r) {
            (Some(d), Ok(got)) => got == d,
            (None, Err(f)) => f.code is InternalError && f.message@ == "delivery checksum failed"@,
            _ => false,
        },
{
    match read {
        Some(d) => Ok(d),
        None => Err(failure(ErrorCode::InternalError, "delivery checksum failed")),
    }
}

/// What is left of a delivery by one more resolved window, after those that landed.
pub open spec fn landed_with(
    landed: Seq<DeliveredWindow>,
    resolved: Result<Option<DeliveredWindow>, Failure>,
) -> Result<Option<Seq<DeliveredWindow>>, Failure> {
    match resolved {
        Ok(Some(w)) => Ok(Some(landed.push(w))),
        Ok(None) => Ok(None),
        Err(f) => Err(f),
    }
}

/// What a delivery amounts to, from how its windows were resolved, in order: a window that
/// failed fails it, and one that was not placed ends it without a delivery, whichever
/// comes first.
pub open spec fn delivery_ends(resolved: Seq<Result<Option<DeliveredWindow>, Failure>>) -> Result<
    Option<Seq<DeliveredWindow>>,
    Failure,
>
    decreases resolved.len(),
{
    if resolved.len() == 0 {
        Ok(Some(Seq::empty()))
    } else {
        match delivery_ends(resolved.drop_last()) {
            Ok(Some(landed)) => landed_with(landed, resolved.last()),
            end => end,
        }
    }
}

/// What one more resolved window leaves of a delivery.
#[derive(Debug)]
pub enum Landing {
    /// It landed: go on.
    Next,
    /// It could not be placed: stop, and serve the body.
    Degrade,
    /// It failed: stop, and fail the request.
    Fail(Failure),
}

/// Take up one more resolved window, after those that `landed`. A delivery stops at the
/// first window that did not.
pub fn run_delivery(
    landed: &mut Vec<DeliveredWindow>,
    resolved: Result<Option<DeliveredWindow>, Failure>,
) -> (r: Landing)
    ensures
        match landed_with(old(landed)@, resolved) {
            Ok(Some(all)) => r is Next && final(landed)@ == all,
            Ok(None) => r is Degrade && final(landed)@ == old(landed)@,
            Err(f) => r == Landing::Fail(f) && final(landed)@ == old(landed)@,
        },
{
    match resolved {
        Ok(Some(w)) => {
            landed.push(w);
            Landing::Next
        },
        Ok(None) => Landing::Degrade,
        Err(f) => Landing::Fail(f),
    }
}

/// A delivery is all or nothing: it is reported only where every window landed, and it
/// then holds each of them, in order.
pub proof fn a_delivery_is_all_or_nothing(
    resolved: Seq<Result<Option<DeliveredWindow>, Failure>>,
    landed: Seq<DeliveredWindow>,
)
    ensures
        delivery_ends(resolved) == Ok::<_, Failure>(Some(landed)) <==> {
            &&& landed.len() == resolved.len()
            &&& forall|i: int|
                0 <= i < resolved.len() ==> #[trigger] resolved[i] == Ok::<_, Failure>(
                    Some(landed[i]),
                )
        },
    decreases resolved.len(),
{
    if resolved.len() > 0 {
        let front = resolved.drop_last();
        match delivery_ends(front) {
            Ok(Some(l)) => {
                a_delivery_is_all_or_nothing(front, l);
                assert forall|i: int| 0 <= i < front.len() implies #[trigger] resolved[i] == Ok::<
                    _,
                    Failure,
                >(Some(l[i])) by {
                    assert(front[i] == resolved[i]);
                }
                if landed.len() == resolved.len() && forall|i: int|
                    0 <= i < resolved.len() ==> #[trigger] resolved[i] == Ok::<_, Failure>(
                        Some(landed[i]),
                    ) {
                    assert forall|i: int| 0 <= i < l.len() implies l[i] == landed[i] by {
                        assert(resolved[i] == Ok::<_, Failure>(Some(l[i])));
                    }
                    assert(resolved[resolved.len() - 1] == resolved.last());
                    assert(landed =~= l.push(landed.last()));
                }
            },
            _ => {
                let kept = landed.drop_last();
                a_delivery_is_all_or_nothing(front, kept);
                if landed.len() == resolved.len() && forall|i: int|
                    0 <= i < resolved.len() ==> #[trigger] resolved[i] == Ok::<_, Failure>(
                        Some(landed[i]),
                    ) {
                    assert forall|i: int| 0 <= i < front.len() implies #[trigger] front[i] == Ok::<
                        _,
                        Failure,
                    >(Some(kept[i])) by {
                        assert(front[i] == resolved[i]);
                    }
                }
            },
        }
    } else {
        assert(landed.len() == 0 ==> landed =~= Seq::<DeliveredWindow>::empty());
    }
}

/// The first window that did not land decides how a delivery ends, whatever the windows behind
/// it did: one that failed fails it with its own error, and one that was not placed ends it
/// without a delivery.
pub proof fn the_first_missing_window_decides(
    resolved: Seq<Result<Option<DeliveredWindow>, Failure>>,
    k: int,
)
    requires
        0 <= k < resolved.len(),
        forall|i: int| 0 <= i < k ==> (#[trigger] resolved[i]) matches Ok(Some(_)),
        !(resolved[k] matches Ok(Some(_))),
    ensures
        resolved[k] matches Err(f) ==> delivery_ends(resolved) == Err::<
            Option<Seq<DeliveredWindow>>,
            Failure,
        >(f),
        resolved[k] is Ok ==> delivery_ends(resolved) == Ok::<
            Option<Seq<DeliveredWindow>>,
            Failure,
        >(None),
    decreases resolved.len(),
{
    let front = resolved.drop_last();
    if k < front.len() {
        assert forall|i: int| 0 <= i < k implies (#[trigger] front[i]) matches Ok(Some(_)) by {
            assert(front[i] == resolved[i]);
        }
        assert(front[k] == resolved[k]);
        the_first_missing_window_decides(front, k);
    } else {
        let landed = Seq::new(
            front.len(),
            |i: int|
                match front[i] {
                    Ok(Some(w)) => w,
                    _ => arbitrary(),
                },
        );
        assert forall|i: int| 0 <= i < front.len() implies #[trigger] front[i] == Ok::<_, Failure>(
            Some(landed[i]),
        ) by {
            assert(front[i] == resolved[i]);
        }
        a_delivery_is_all_or_nothing(front, landed);
        assert(resolved.last() == resolved[k]);
    }
}

/// Each window that landed counts its bytes once: those of two lists are the bytes of both, and
/// one window alone counts its own.
pub proof fn landed_bytes_add_up(
    front: Seq<DeliveredWindow>,
    back: Seq<DeliveredWindow>,
    one: DeliveredWindow,
)
    ensures
        bytes_landed(front + back) == bytes_landed(front) + bytes_landed(back),
        bytes_landed(seq![one]) == one.bytes,
        bytes_landed(Seq::empty()) == 0,
    decreases back.len(),
{
    assert(seq![one].drop_last() =~= Seq::<DeliveredWindow>::empty());
    reveal_with_fuel(bytes_landed, 2);
    if back.len() == 0 {
        assert(front + back =~= front);
    } else {
        landed_bytes_add_up(front, back.drop_last(), one);
        assert((front + back).drop_last() =~= front + back.drop_last());
    }
}

/// The bytes of all windows together.
pub open spec fn bytes_landed(landed: Seq<DeliveredWindow>) -> nat
    decreases landed.len(),
{
    if landed.len() == 0 {
        0
    } else {
        bytes_landed(landed.drop_last()) + landed.last().bytes as nat
    }
}

/// Fewer windows hold no more bytes.
proof fn lemma_bytes_landed(landed: Seq<DeliveredWindow>, n: int)
    requires
        0 <= n <= landed.len(),
    ensures
        bytes_landed(landed.take(n)) <= bytes_landed(landed),
    decreases landed.len() - n,
{
    if n < landed.len() {
        lemma_bytes_landed(landed, n + 1);
        assert(landed.take(n + 1).drop_last() =~= landed.take(n));
    } else {
        assert(landed.take(n) =~= landed);
    }
}

/// How many bytes were delivered.
pub fn delivered_bytes(landed: &[DeliveredWindow]) -> (n: u64)
    requires
        bytes_landed(landed@) <= u64::MAX,
    ensures
        n == bytes_landed(landed@),
{
    let mut sum: u64 = 0;
    let mut i: usize = 0;
    assert(landed@.take(0).len() == 0);
    while i < landed.len()
        invariant
            i <= landed@.len(),
            bytes_landed(landed@) <= u64::MAX,
            sum == bytes_landed(landed@.take(i as int)),
        decreases landed@.len() - i,
    {
        proof {
            lemma_bytes_landed(landed@, i + 1);
            assert(landed@.take(i + 1).drop_last() =~= landed@.take(i as int));
        }
        sum = sum + landed[i].bytes;
        i += 1;
    }
    assert(landed@.take(i as int) =~= landed@);
    sum
}

/// Ascending by where the windows begin.
pub open spec fn in_offset_order(landed: Seq<DeliveredWindow>) -> bool {
    forall|i: int, j: int|
        0 <= i <= j < landed.len() ==> (#[trigger] landed[i]).dst_at <= (
        #[trigger] landed[j]).dst_at
}

/// The same windows in ascending order of where they begin. Checksums fold in that order,
/// and in no other.
pub fn by_offset(landed: Vec<DeliveredWindow>) -> (r: Vec<DeliveredWindow>)
    ensures
        in_offset_order(r@),
        forall|i: int, j: int|
            0 <= i < j < r@.len() ==> (#[trigger] r@[i]).dst_at <= (#[trigger] r@[j]).dst_at,
        r@.to_multiset() == landed@.to_multiset(),
        r@.len() == landed@.len(),
{
    let mut out: Vec<DeliveredWindow> = Vec::new();
    let mut i: usize = 0;
    proof {
        assert(landed@.take(0) =~= out@);
    }
    while i < landed.len()
        invariant
            i <= landed@.len(),
            out@.len() == i,
            in_offset_order(out@),
            out@.to_multiset() == landed@.take(i as int).to_multiset(),
        decreases landed@.len() - i,
    {
        let w: DeliveredWindow = landed[i];
        let mut at: usize = out.len();
        while at > 0 && out[at - 1].dst_at > w.dst_at
            invariant
                at <= out@.len(),
                in_offset_order(out@),
                forall|j: int| at <= j < out@.len() ==> (#[trigger] out@[j]).dst_at > w.dst_at,
            decreases at,
        {
            at -= 1;
        }
        let ghost before = out@;
        out.insert(at, w);
        proof {
            vstd::seq_lib::to_multiset_insert(before, at as int, w);
            assert(landed@.take(i + 1) =~= landed@.take(i as int).push(w));
            vstd::seq_lib::to_multiset_build(landed@.take(i as int), w);
            assert forall|a: int, b: int| 0 <= a <= b < out@.len() implies (
            #[trigger] out@[a]).dst_at <= (#[trigger] out@[b]).dst_at by {
                let pa = if a < at { a } else { a - 1 };
                let pb = if b < at { b } else { b - 1 };
                if a < at {
                    assert(out@[a] == before[pa]);
                    assert(before[pa].dst_at <= before[at - 1].dst_at);
                } else if a > at {
                    assert(out@[a] == before[pa]);
                }
                if b < at {
                    assert(out@[b] == before[pb]);
                } else if b > at {
                    assert(out@[b] == before[pb]);
                }
            }
        }
        i += 1;
    }
    assert(landed@.take(i as int) =~= landed@);
    out
}

/// The checksums of the windows, in their order.
pub open spec fn digests(landed: Seq<DeliveredWindow>) -> Seq<DeliveryDigest>
    decreases landed.len(),
{
    if landed.len() == 0 {
        Seq::empty()
    } else {
        match landed.last().digest {
            Some(d) => digests(landed.drop_last()).push(d),
            None => digests(landed.drop_last()),
        }
    }
}

/// Where each window has its checksum, they are folded window by window, in the windows' order;
/// a window without one adds none.
pub proof fn each_window_gives_its_checksum(landed: Seq<DeliveredWindow>, more: DeliveredWindow)
    ensures
        (forall|i: int| 0 <= i < landed.len() ==> (#[trigger] landed[i]).digest is Some) ==> {
            &&& digests(landed).len() == landed.len()
            &&& forall|i: int|
                0 <= i < landed.len() ==> landed[i].digest == Some(#[trigger] digests(landed)[i])
        },
        more.digest is None ==> digests(landed.push(more)) == digests(landed),
        more.digest matches Some(d) ==> digests(landed.push(more)) == digests(landed).push(d),
    decreases landed.len(),
{
    assert(landed.push(more).drop_last() =~= landed);
    if landed.len() > 0 {
        let less = landed.drop_last();
        each_window_gives_its_checksum(less, landed.last());
        if forall|i: int| 0 <= i < landed.len() ==> (#[trigger] landed[i]).digest is Some {
            assert forall|i: int| 0 <= i < less.len() implies (
            #[trigger] less[i]).digest is Some by {
                assert(less[i] == landed[i]);
            }
            assert(landed[landed.len() - 1].digest is Some);
            assert forall|i: int| 0 <= i < landed.len() implies landed[i].digest == Some(
                #[trigger] digests(landed)[i],
            ) by {
                if i < less.len() {
                    assert(less[i].digest == Some(digests(less)[i]));
                }
            }
        }
    }
}

/// The checksums to fold, in their order.
pub fn digests_of(landed: &[DeliveredWindow]) -> (r: Vec<DeliveryDigest>)
    ensures
        r@ == digests(landed@),
{
    let mut out: Vec<DeliveryDigest> = Vec::new();
    let mut i: usize = 0;
    assert(landed@.take(0).len() == 0);
    while i < landed.len()
        invariant
            i <= landed@.len(),
            out@ == digests(landed@.take(i as int)),
        decreases landed@.len() - i,
    {
        assert(landed@.take(i + 1).drop_last() =~= landed@.take(i as int));
        if let Some(d) = landed[i].digest {
            out.push(d);
        }
        i += 1;
    }
    assert(landed@.take(i as int) =~= landed@);
    out
}

// ---- the answer ----

/// The answer to a delivery: no body, the number of bytes delivered, their checksum where
/// the client wants one, and the object's metadata.
pub fn delivered_output(
    header: &ObjectHeader,
    start: u64,
    end: u64,
    ranged: bool,
    delivered: u64,
    checksum: Option<String>,
) -> (out: GetOutput)
    requires
        ranged ==> end > 0,
    ensures
        describes(out, *header, start as nat, end as nat, ranged),
        out.content_length == 0,
        out.extra@.len() == if checksum is Some {
            2int
        } else {
            1
        },
        out.extra@[0].0@ == DELIVERED_HEADER@,
        out.extra@[0].1@ == decimal(delivered as nat),
        checksum matches Some(c) ==> out.extra@[1].0@ == CHECKSUM_HEADER@ && out.extra@[1].1@ == c@,
{
    let mut out = describe(header, start, end, ranged, 0);
    let mut count = String::new();
    push_decimal(&mut count, delivered);
    assert(count@ =~= decimal(delivered as nat));
    let mut extra: Vec<(String, String)> = Vec::new();
    extra.push((DELIVERED_HEADER.to_owned(), count));
    if let Some(c) = checksum {
        extra.push((CHECKSUM_HEADER.to_owned(), c));
    }
    out.extra = extra;
    out
}

} // verus!
