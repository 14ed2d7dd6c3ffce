use bytes::Bytes;
use hyper::header::{HeaderName, HeaderValue};
use hyper::HeaderMap;
use pacer_daemon::answer::{failure, ErrorCode, ObjectHeader};
use pacer_daemon::deliver::{
    by_offset, delivered_bytes, delivered_output, digest_delivered, digest_step, digests_of,
    requested_endpoints, requested_target, run_delivery, DeliveredWindow, DigestStep, Landing,
};
use pacer_daemon::fill::{
    fetch_leading, fill_ctx, finish_fill, AfterRead, FillClaim, FillCtx, FillGuard, FillRegistry,
    Resolve, ServedFrom,
};
use pacer_daemon::place::{
    copy_window, deliver_from_peer, deliver_window, delivery_claimed, delivery_waited,
    holder_answered, holder_writes_client, place_with_retry, window_slice, write_asked, write_window, ChunkWindow, DeliverStep,
    DeliveryDigest, HolderAnswer, HolderStep, Placed, PlacedFrom, Placement, StreamAnswer,
    TokenDecline, TokenWrite, WriteStep,
};
use pacer_daemon::read::ReadDecision;
use pacer_daemon::target::{
    open_client_memory, target_rejected, unreachable_target, window_fits, ClientMemory, OpenStep,
    RejectionKind, TargetMemory,
};

fn request(name: &'static str, value: &[u8]) -> HeaderMap {
    let mut map = HeaderMap::new();
    map.insert(HeaderName::from_static(name), HeaderValue::from_bytes(value).unwrap());
    map
}

#[test]
fn a_target_is_read_only_where_delivery_is_on() {
    let asked = request("x-pacer-target", b"shm:/loader-7;len=4");
    assert_eq!(requested_target(true, &asked).as_deref(), Some("shm:/loader-7;len=4"));
    assert_eq!(requested_target(false, &asked), None);
    assert_eq!(requested_target(true, &HeaderMap::new()), None);
    let broken = request("x-pacer-target", b"shm:\xff");
    assert_eq!(
        requested_target(true, &broken).as_deref(),
        Some("shm:\u{fffd}"),
        "what is no text is handed on to fail in parsing"
    );
}

#[test]
fn endpoints_are_asked_for_only_where_delivery_is_on() {
    let asked = request("x-pacer-get-endpoints", b"offset=1");
    assert_eq!(requested_endpoints(true, &asked).as_deref(), Some("offset=1"));
    assert_eq!(requested_endpoints(false, &asked), None);
    assert_eq!(requested_endpoints(true, &request("x-pacer-target", b"y")), None);
}

const DIGEST: DeliveryDigest = DeliveryDigest { crc32: 7, len: 4 };

fn placed(digest: Option<DeliveryDigest>) -> Placed {
    Placed { bytes: 4, digest, source: PlacedFrom::Local }
}

const MAPPED: ClientMemory = ClientMemory::Mapped { len: 100 };
const TOKEN: ClientMemory = ClientMemory::Token { len: 100, checksum: true };

#[test]
fn a_checksum_is_taken_where_the_client_wants_one() {
    assert_eq!(digest_step(false, &placed(Some(DIGEST)), &MAPPED), DigestStep::Without);
    assert_eq!(digest_step(true, &placed(Some(DIGEST)), &TOKEN), DigestStep::Made(DIGEST));
    assert_eq!(digest_step(true, &placed(None), &MAPPED), DigestStep::ReadBack);
    assert_eq!(digest_step(true, &placed(None), &TOKEN), DigestStep::Without);
    assert_eq!(digest_delivered(Some(DIGEST)).unwrap(), DIGEST);
    let f = digest_delivered(None).unwrap_err();
    assert_eq!(f.code, ErrorCode::InternalError);
    assert_eq!(f.message, "delivery checksum failed");
}

fn window(dst_at: usize, bytes: u64, crc32: u32) -> DeliveredWindow {
    DeliveredWindow { dst_at, bytes, digest: Some(DeliveryDigest { crc32, len: bytes }) }
}

/// One window that is not placed ends the delivery, and one that fails fails it.
#[test]
fn a_delivery_stops_at_the_first_window_that_did_not_land() {
    let mut landed = Vec::new();
    assert!(matches!(run_delivery(&mut landed, Ok(Some(window(0, 4, 1)))), Landing::Next));
    assert!(matches!(run_delivery(&mut landed, Ok(None)), Landing::Degrade));
    let failed = run_delivery(&mut landed, Err(failure(ErrorCode::NoSuchKey, "gone")));
    match failed {
        Landing::Fail(f) => assert_eq!(f.message, "gone"),
        other => panic!("{other:?}"),
    }
    assert_eq!(landed, vec![window(0, 4, 1)]);
}

#[test]
fn checksums_fold_in_offset_order() {
    let landed = vec![window(20, 5, 3), window(0, 10, 1), window(10, 10, 2)];
    assert_eq!(delivered_bytes(&landed), 25);
    let sorted = by_offset(landed);
    let at: Vec<usize> = sorted.iter().map(|w| w.dst_at).collect();
    assert_eq!(at, vec![0, 10, 20]);
    let crcs: Vec<u32> = digests_of(&sorted).iter().map(|d| d.crc32).collect();
    assert_eq!(crcs, vec![1, 2, 3]);
    let bare = DeliveredWindow { digest: None, ..window(0, 1, 0) };
    assert!(digests_of(&[bare]).is_empty());
    assert!(by_offset(Vec::new()).is_empty());
}

#[test]
fn a_delivered_answer_has_headers_and_no_body() {
    let header = ObjectHeader {
        object_len: 100,
        e_tag: Some("tag".to_owned()),
        content_type: None,
        last_modified_epoch_secs: Some(3),
    };
    let out = delivered_output(&header, 0, 25, true, 25, Some("crc32=abc".to_owned()));
    assert_eq!(out.content_length, 0);
    assert_eq!(out.content_range.as_deref(), Some("bytes 0-24/100"));
    assert_eq!(out.e_tag.as_deref(), Some("tag"));
    assert_eq!(out.last_modified, Some(3));
    assert_eq!(
        out.extra,
        vec![
            ("x-pacer-delivered".to_owned(), "25".to_owned()),
            ("x-pacer-checksum".to_owned(), "crc32=abc".to_owned()),
        ]
    );
    let bare = delivered_output(&header, 0, 100, false, 100, None);
    assert_eq!(bare.extra, vec![("x-pacer-delivered".to_owned(), "100".to_owned())]);
    assert_eq!(bare.content_range, None);
}

// ---- placing ----

fn declined(d: TokenDecline) -> Placement {
    Placement::Declined(d)
}

/// A window is tried again after 50, 100 and 200 milliseconds, and then no more.
#[test]
fn a_passing_decline_is_tried_again_three_times() {
    let late = declined(TokenDecline::WriterNotInstalled);
    let waits: Vec<Option<u64>> = (1..6).map(|n| place_with_retry(n, &late)).collect();
    assert_eq!(waits, vec![Some(50), Some(100), Some(200), None, None]);
    let total: u64 = waits.iter().flatten().sum();
    assert_eq!(total, 350);
    assert_eq!(place_with_retry(1, &declined(TokenDecline::NotAnnounceable)), Some(50));
}

#[test]
fn a_final_decline_is_not_tried_again() {
    for d in [
        TokenDecline::NoHealthyRail,
        TokenDecline::NotAddressable,
        TokenDecline::BodyExceedsStaging,
        TokenDecline::NoPlane,
    ] {
        assert!(!d.is_transient());
        assert_eq!(place_with_retry(1, &declined(d)), None);
        assert_eq!(declined(d).placed(), None);
    }
    assert_eq!(place_with_retry(1, &Placement::Placed(placed(None))), None);
    assert_eq!(Placement::Placed(placed(None)).placed(), Some(placed(None)));
}

#[test]
fn the_labels_of_sources_and_declines() {
    assert_eq!(PlacedFrom::Local.label(), "local");
    assert_eq!(PlacedFrom::PeerRdma.label(), "peer_rdma");
    assert_eq!(PlacedFrom::PeerStream.label(), "peer_stream");
    assert_eq!(PlacedFrom::Backend.label(), "backend");
    assert_eq!(TokenDecline::NotAnnounceable.label(), "not_announceable");
    assert_eq!(TokenDecline::WriterNotInstalled.label(), "writer_not_installed");
    assert_eq!(TokenDecline::NoHealthyRail.label(), "no_healthy_rail");
    assert_eq!(TokenDecline::NotAddressable.label(), "not_addressable");
    assert_eq!(TokenDecline::BodyExceedsStaging.label(), "body_exceeds_staging");
    assert_eq!(TokenDecline::NoPlane.label(), "no_rdma_plane");
}

fn whole(whole: bool) -> ChunkWindow {
    ChunkWindow { idx: 0, src_at: 2, dst_at: 0, len: 3, whole }
}

/// A holder writes whole chunks only.
#[test]
fn a_holder_writes_whole_windows_only() {
    assert!(holder_writes_client(&whole(true), &MAPPED, true, true, false));
    assert!(!holder_writes_client(&whole(false), &MAPPED, true, true, true));
    assert!(!holder_writes_client(&whole(true), &MAPPED, true, false, true));
    assert!(!holder_writes_client(&whole(true), &MAPPED, false, true, true));
    assert!(holder_writes_client(&whole(true), &TOKEN, true, false, true));
    assert!(!holder_writes_client(&whole(true), &TOKEN, true, true, false));
}

fn ctx(owns: bool) -> FillCtx {
    fill_ctx(owns, true, ReadDecision::CacheAndFill, 2)
}

#[test]
fn a_window_is_looked_for_as_a_chunk_is() {
    let alone = fill_ctx(true, false, ReadDecision::CacheAndFill, 2);
    let unkept = fill_ctx(true, false, ReadDecision::CacheNoFill, 2);
    assert!(matches!(deliver_window(&ctx(false), true, true), DeliverStep::PlaceLocal));
    assert!(matches!(deliver_window(&ctx(true), true, true), DeliverStep::PlaceLocal));
    assert!(matches!(deliver_window(&ctx(true), false, true), DeliverStep::Claim));
    assert!(matches!(deliver_window(&alone, false, true), DeliverStep::Read { keep: true }));
    assert!(matches!(deliver_window(&unkept, false, true), DeliverStep::Read { keep: false }));
    assert!(matches!(deliver_window(&ctx(false), false, true), DeliverStep::AskWrite(0)));
    assert!(matches!(deliver_window(&ctx(false), false, false), DeliverStep::AskStream(0)));
    assert!(matches!(write_asked(0, None), DeliverStep::AskStream(0)));
    assert!(
        matches!(write_asked(0, Some(placed(None))), DeliverStep::Done(p) if p == placed(None))
    );
    let c = ctx(false);
    assert!(matches!(
        deliver_from_peer(&c, true, 0, StreamAnswer::NotCached),
        (DeliverStep::AskWrite(1), false)
    ));
    assert!(matches!(
        deliver_from_peer(&c, true, 1, StreamAnswer::Failed),
        (DeliverStep::Read { keep: false }, true)
    ));
    assert!(matches!(
        deliver_from_peer(&c, false, 0, StreamAnswer::Broken),
        (DeliverStep::AskStream(1), true)
    ));
    assert!(
        matches!(
            deliver_from_peer(&c, true, 0, StreamAnswer::NotPlaced),
            (DeliverStep::Read { keep: false }, false)
        ),
        "bytes that cannot be placed are not asked of another peer"
    );
    assert!(matches!(
        deliver_from_peer(&c, true, 0, StreamAnswer::Placed(placed(None))),
        (DeliverStep::Done(p), false) if p == placed(None)
    ));
}

/// The chunk that the deliveries below are of.
const FLOWN_KEY: &str = "bucket/object#16:0";

fn placed_bytes(step: DeliverStep) -> Bytes {
    match step {
        DeliverStep::Place { body, source } => {
            assert_eq!(source, PlacedFrom::Backend);
            body
        }
        other => panic!("expected bytes to place, got {other:?}"),
    }
}

/// Two deliveries of one missed chunk read the backend once, and both place what it gave.
#[test]
fn two_deliveries_share_one_backend_read() {
    let mut registry = FillRegistry::new();
    let c = ctx(true);
    assert!(matches!(deliver_window(&c, false, false), DeliverStep::Claim));
    let led = delivery_claimed(&c, registry.claim_fill(FLOWN_KEY));
    let guard = match led {
        DeliverStep::Lead { guard, keep: true } => guard,
        other => panic!("the first arrival leads, got {other:?}"),
    };
    let joined = delivery_claimed(&c, registry.claim_fill(FLOWN_KEY));
    assert!(matches!(joined, DeliverStep::Await), "the second does not read");
    // A read with a body joins the same flight.
    assert!(matches!(c.claimed(registry.claim_fill(FLOWN_KEY)), Resolve::Await));
    let (body, guard, told) =
        fetch_leading(&mut registry, guard, Ok(Bytes::from_static(b"chunk"))).unwrap();
    assert!(told);
    assert_eq!(placed_bytes(delivery_waited(&c, Some(body.clone()))), body);
    let late = delivery_claimed(&c, registry.claim_fill(FLOWN_KEY));
    assert_eq!(placed_bytes(late), body);
    match c.claimed(registry.claim_fill(FLOWN_KEY)) {
        Resolve::Serve { body: served, from } => {
            assert_eq!((served, from), (body, ServedFrom::Flight));
        }
        other => panic!("expected the leader's bytes, got {other:?}"),
    }
    finish_fill(&mut registry, guard);
    assert!(matches!(registry.claim_fill(FLOWN_KEY), FillClaim::Lead(_)));
}

/// A delivery that a leader lets down, or that meets a claim which publishes nothing, reads
/// on its own, as it would without the flight.
#[test]
fn a_delivery_that_gets_nothing_reads_on_its_own() {
    let mut registry = FillRegistry::new();
    let c = ctx(true);
    assert!(matches!(delivery_waited(&c, None), DeliverStep::Read { keep: true }));
    let held = FillGuard::for_fill(&mut registry, FLOWN_KEY).expect("a free key");
    assert!(matches!(
        delivery_claimed(&c, registry.claim_fill(FLOWN_KEY)),
        DeliverStep::Read { keep: true }
    ));
    finish_fill(&mut registry, held);
    let unkept = fill_ctx(true, true, ReadDecision::CacheNoFill, 0);
    assert!(matches!(delivery_waited(&unkept, None), DeliverStep::Read { keep: false }));
    match delivery_claimed(&unkept, registry.claim_fill(FLOWN_KEY)) {
        DeliverStep::Lead { guard, keep } => {
            assert!(!keep, "it leads and publishes all the same");
            assert!(fetch_leading(
                &mut registry,
                guard,
                Err(failure(ErrorCode::InternalError, "backend chunk read failed")),
            )
            .is_err());
        }
        other => panic!("expected to lead, got {other:?}"),
    }
    assert_eq!(registry.abandoned(), 1);
    assert!(matches!(
        unkept.claimed(registry.claim_fill(FLOWN_KEY)),
        Resolve::Read(AfterRead::Lead { keep: false, .. })
    ));
}

#[test]
fn a_holders_answer_is_taken_as_it_comes() {
    let landed = || HolderAnswer::Landed { bytes: 9, crc32: Some(5) };
    let (step, counted) = holder_answered(&TOKEN, landed());
    match step {
        HolderStep::Placed(p) => {
            assert_eq!(p.bytes, 9);
            assert_eq!(p.digest, Some(DeliveryDigest { crc32: 5, len: 9 }));
            assert_eq!(p.source, PlacedFrom::PeerRdma);
        }
        other => panic!("{other:?}"),
    }
    assert!(!counted);
    let (step, _) = holder_answered(&MAPPED, landed());
    match step {
        HolderStep::Placed(p) => assert_eq!(p.digest, None, "it is read back"),
        other => panic!("{other:?}"),
    }
    let (step, counted) =
        holder_answered(&TOKEN, HolderAnswer::Streamed(Bytes::from_static(b"body")));
    assert!(matches!(step, HolderStep::PlaceHere(b) if b == Bytes::from_static(b"body")));
    assert!(!counted);
    let (step, counted) = holder_answered(&TOKEN, HolderAnswer::NotCached);
    assert!(matches!(step, HolderStep::NotDelivered) && !counted);
    for answer in [HolderAnswer::Broken, HolderAnswer::Failed] {
        let (step, counted) = holder_answered(&MAPPED, answer);
        assert!(matches!(step, HolderStep::NotDelivered) && counted);
    }
}

#[test]
fn a_window_takes_its_part_of_a_body() {
    let body = Bytes::from_static(b"abcdefgh");
    assert_eq!(window_slice(&body, &whole(false)), Bytes::from_static(b"cde"));
    let short = Bytes::from_static(b"abc");
    assert_eq!(window_slice(&short, &whole(false)), Bytes::from_static(b"c"));
    assert!(window_slice(&Bytes::from_static(b"a"), &whole(false)).is_empty());
}

#[test]
fn a_copy_is_placed_or_fails() {
    let done = copy_window(true, 3, PlacedFrom::Local).unwrap();
    assert_eq!(
        done,
        Placement::Placed(Placed { bytes: 3, digest: None, source: PlacedFrom::Local })
    );
    let f = copy_window(false, 3, PlacedFrom::Local).unwrap_err();
    assert_eq!(f.code, ErrorCode::InternalError);
    assert_eq!(f.message, "delivery copy failed");
}

#[test]
fn a_write_is_made_and_digested_in_turn() {
    let step = |plane, checksum, write, digest| {
        write_window(plane, checksum, 4, PlacedFrom::Backend, write, digest)
    };
    assert!(matches!(
        step(false, true, None, None),
        WriteStep::Done(Placement::Declined(TokenDecline::NoPlane))
    ));
    assert!(matches!(step(true, true, None, None), WriteStep::Write));
    match step(true, true, Some(TokenWrite::Failed), None) {
        WriteStep::Fail(f) => assert_eq!(f.message, "delivery write failed"),
        other => panic!("{other:?}"),
    }
    assert!(matches!(
        step(true, true, Some(TokenWrite::Declined(TokenDecline::NotAnnounceable)), None),
        WriteStep::Done(Placement::Declined(TokenDecline::NotAnnounceable))
    ));
    assert!(matches!(
        step(true, true, Some(TokenWrite::Written), None),
        WriteStep::Digest
    ));
    match step(true, true, Some(TokenWrite::Written), Some(None)) {
        WriteStep::Fail(f) => assert_eq!(f.message, "delivery checksum failed"),
        other => panic!("{other:?}"),
    }
    match step(true, true, Some(TokenWrite::Written), Some(Some(DIGEST))) {
        WriteStep::Done(Placement::Placed(p)) => {
            assert_eq!(p, Placed { bytes: 4, digest: Some(DIGEST), source: PlacedFrom::Backend })
        }
        other => panic!("{other:?}"),
    }
    match step(true, false, Some(TokenWrite::Written), None) {
        WriteStep::Done(Placement::Placed(p)) => assert_eq!(p.digest, None),
        other => panic!("{other:?}"),
    }
}

// ---- the target ----

#[test]
fn a_refused_target_degrades_or_is_the_clients_mistake() {
    assert!(target_rejected(RejectionKind::Quota, "x").is_ok());
    assert!(target_rejected(RejectionKind::Unsupported, "x").is_ok());
    for kind in [RejectionKind::Malformed, RejectionKind::Unusable] {
        let f = target_rejected(kind, "what is wrong").unwrap_err();
        assert_eq!(f.code, ErrorCode::InvalidRequest);
        assert_eq!(f.message, "what is wrong");
    }
}

#[test]
fn client_registered_memory_is_only_named() {
    assert_eq!(
        open_client_memory(TargetMemory::Shm, 4, true, false).unwrap(),
        OpenStep::MapSegment
    );
    assert_eq!(
        open_client_memory(TargetMemory::Nic, 4, true, true).unwrap(),
        OpenStep::Ready(ClientMemory::Token { len: 4, checksum: true })
    );
    let e = open_client_memory(TargetMemory::Nic, 4, true, false).unwrap_err();
    assert_eq!(e.kind, RejectionKind::Unsupported);
    assert_eq!(
        e.text,
        "client-registered memory (this daemon was built without the RDMA plane)"
    );
}

#[test]
fn a_window_must_hold_what_is_asked_for() {
    assert_eq!(MAPPED.window_len(), 100);
    assert!(window_fits(&MAPPED, 50, 150).is_ok());
    let e = window_fits(&MAPPED, 50, 151).unwrap_err();
    assert_eq!(e.kind, RejectionKind::Unusable);
    assert_eq!(e.text, "window is 100 B, too small for the 101 B requested");
    let gone = unreachable_target();
    assert_eq!(gone.kind, RejectionKind::Unsupported);
    assert_eq!(
        gone.text,
        "client-registered memory (no usable RDMA path to it right now)"
    );
}
