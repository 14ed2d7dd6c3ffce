use bytes::Bytes;
use pacer_daemon::chunk::ChunkConfig;
use pacer_daemon::clock::{Moment, Span};
use pacer_daemon::cluster::{Holder, NodeId, Tier};
use pacer_daemon::fill::{FillGuard, FillRegistry};
use pacer_daemon::metrics::chunk_in_flight;
use pacer_daemon::peer::{
    announce, buffer_written, cached_meta, claim_through, commit_upload, discard_upload,
    done_only_stream, fetch_blob, lookup_sharers, part_e_tag, part_uploaded, read_through,
    readthrough_permits, refusal_label, refusal_response, store_chunk, stream_bytes, through_failed,
    through_meta, try_serve_via_write, write_into_client_token, Announced, BlobMeta,
    ClientWriteStep, FetchStep, PeerCode, Pump, PumpEnd, RefusalReason, StoreStep, ThroughReply,
    WireRefusal, WireTier, WriteRoute, WriteServe, FRAME_SIZE, HOLDER_SERVE_SLOTS,
};
use pacer_daemon::place::{TokenDecline, TokenWrite};
use pacer_daemon::proxy::{BucketMap, PacerProxy};
use pacer_daemon::scatter::StoreRefusal;
use pacer_daemon::staging::{StageOutcome, StagingArea};
use pacer_daemon::write::BackendType;

/// A chunk key of the shape that a read-through claims.
const A_CHUNK_KEY: &str = "bucket/key#16777216:0";

#[test]
fn a_client_fill_already_in_flight_refuses_the_read_through_claim() {
    let mut filling = FillRegistry::new();

    let client_fill = FillGuard::for_fill(&mut filling, A_CHUNK_KEY)
        .expect("claiming a fresh key must succeed");
    assert!(
        FillGuard::for_fill(&mut filling, A_CHUNK_KEY).is_none(),
        "a read-through must not fill a key a client GET is already filling"
    );
    assert!(claim_through(&mut filling, A_CHUNK_KEY, true).is_none());

    client_fill.release(&mut filling);
    assert!(
        FillGuard::for_fill(&mut filling, A_CHUNK_KEY).is_some(),
        "once the first fill releases the key, the next claim must succeed"
    );
}

#[test]
fn an_object_not_worth_keeping_is_not_claimed() {
    let mut filling = FillRegistry::new();
    assert!(claim_through(&mut filling, A_CHUNK_KEY, false).is_none());
    assert!(!filling.is_claimed(A_CHUNK_KEY));
    let guard = claim_through(&mut filling, A_CHUNK_KEY, true).unwrap();
    assert!(filling.is_claimed(A_CHUNK_KEY));
    guard.release(&mut filling);
    assert_eq!(filling.abandoned(), 1);
}

fn node(name: &str) -> NodeId {
    NodeId::new(name.to_owned())
}

#[test]
fn a_miss_is_read_through_by_a_home_only() {
    let homes = [node("a"), node("me")];
    assert!(matches!(fetch_blob(true, true, &[], "x"), FetchStep::Serve));
    assert!(matches!(fetch_blob(false, false, &homes, "me"), FetchStep::ReadThrough));
    assert!(
        matches!(fetch_blob(false, false, &[], "me"), FetchStep::ReadThrough),
        "a ring without homes makes every node one"
    );
    for step in [
        fetch_blob(false, true, &homes, "me"),
        fetch_blob(false, false, &homes, "stranger"),
    ] {
        match step {
            FetchStep::Refuse(s) => {
                assert_eq!(s.code, PeerCode::NotFound);
                assert_eq!(s.message, "blob not cached");
            }
            other => panic!("{other:?}"),
        }
    }
    assert_eq!(readthrough_permits(0), 1);
    assert_eq!(readthrough_permits(8), 8);
    assert_eq!(HOLDER_SERVE_SLOTS, 256);
}

#[test]
fn an_ambiguous_destination_is_streamed_to() {
    assert_eq!(try_serve_via_write(true, true, true, true), WriteRoute::Stream);
    assert_eq!(try_serve_via_write(false, true, false, true), WriteRoute::Stream);
    assert_eq!(try_serve_via_write(true, false, true, false), WriteRoute::Token);
    assert_eq!(try_serve_via_write(true, true, false, true), WriteRoute::Buffer);
    assert_eq!(try_serve_via_write(true, true, false, false), WriteRoute::Stream);
    assert_eq!(try_serve_via_write(true, false, false, true), WriteRoute::Stream);
    assert_eq!(buffer_written(Some(true)), WriteServe { served: true, crc32: None });
    assert_eq!(buffer_written(Some(false)), WriteServe::streamed());
    assert_eq!(buffer_written(None), WriteServe::streamed());
}

#[test]
fn a_client_write_owes_the_checksum_it_was_asked_for() {
    let nothing = || ClientWriteStep::Done(WriteServe::streamed(), None);
    let written = Some(TokenWrite::Written);
    assert_eq!(write_into_client_token(false, true, true, None, None), nothing());
    assert_eq!(write_into_client_token(true, false, true, None, None), nothing());
    assert_eq!(
        write_into_client_token(true, true, true, None, None),
        ClientWriteStep::Write { digest: true }
    );
    assert_eq!(
        write_into_client_token(true, true, true, Some(TokenWrite::Failed), Some(1)),
        nothing()
    );
    let late = TokenDecline::WriterNotInstalled;
    assert_eq!(
        write_into_client_token(true, true, true, Some(TokenWrite::Declined(late)), Some(1)),
        ClientWriteStep::Done(WriteServe::streamed(), Some(late))
    );
    assert_eq!(
        write_into_client_token(true, true, true, written, Some(9)),
        ClientWriteStep::Done(WriteServe { served: true, crc32: Some(9) }, None)
    );
    assert_eq!(write_into_client_token(true, true, true, written, None), nothing());
    assert_eq!(
        write_into_client_token(true, true, false, written, Some(9)),
        ClientWriteStep::Done(WriteServe { served: true, crc32: None }, None)
    );
}

fn meta(total_len: u64) -> BlobMeta {
    cached_meta(total_len, &WriteServe::streamed())
}

#[test]
fn frames_carry_the_body_and_the_first_the_metadata() {
    for len in [0, 1, FRAME_SIZE - 1, FRAME_SIZE, FRAME_SIZE + 1, 3 * FRAME_SIZE, 3 * FRAME_SIZE + 5]
    {
        let body = Bytes::from((0..len).map(|i| (i % 251) as u8).collect::<Vec<u8>>());
        let frames = stream_bytes(&body, meta(len as u64));
        assert_eq!(frames.len(), std::cmp::max(1, len.div_ceil(FRAME_SIZE)));
        let mut whole = Vec::new();
        for (i, frame) in frames.iter().enumerate() {
            assert_eq!(frame.meta.is_some(), i == 0);
            assert!(frame.data.len() <= FRAME_SIZE);
            whole.extend_from_slice(&frame.data);
        }
        assert_eq!(whole, body);
        assert_eq!(frames[0].meta.as_ref().unwrap().total_len, len as u64);
    }
    assert_eq!(FRAME_SIZE, 1 << 20);
}

#[test]
fn a_written_answer_is_one_empty_frame() {
    let m = cached_meta(7, &WriteServe { served: true, crc32: Some(3) });
    assert!(m.served_via_rdma);
    assert_eq!(m.written_crc32, Some(3));
    assert_eq!((m.total_len, m.object_len, m.body_start), (7, 7, 0));
    let frame = done_only_stream(m);
    assert!(frame.data.is_empty());
    assert!(frame.meta.is_some());
}

#[test]
fn a_read_through_asks_for_the_chunks_bounds() {
    let chunk = ChunkConfig::new(16);
    let read = read_through("bucket/a/b#16:3", &chunk).unwrap();
    assert_eq!(read.bucket, "bucket");
    assert_eq!(read.key, "a/b");
    assert_eq!(read.start, 48);
    assert_eq!(read.range, "bytes=48-63");
    let bad = read_through("bucket/a", &chunk).unwrap_err();
    assert_eq!(bad.code, PeerCode::InvalidArgument);
    assert_eq!(bad.message, "malformed chunk key");
    let bad = read_through("noslash#16:3", &chunk).unwrap_err();
    assert_eq!(bad.code, PeerCode::InvalidArgument);
    assert_eq!(bad.message, "malformed cache key");
    let far = read_through("noslash#16:18446744073709551615", &chunk).unwrap_err();
    assert_eq!(far.message, "malformed cache key", "its index is not looked at");
    let gone = through_failed(true, "x");
    assert_eq!(gone.code, PeerCode::NotFound);
    assert_eq!(gone.message, "no such key at backend");
    let down = through_failed(false, "timed out");
    assert_eq!(down.code, PeerCode::Unavailable);
    assert_eq!(down.message, "backend GET failed: timed out");
}

fn reply() -> ThroughReply {
    ThroughReply {
        content_length: Some(16),
        content_range: Some("bytes 48-63/100".to_owned()),
        e_tag: Some("\"tag\"".to_owned()),
        content_type: Some("t".to_owned()),
        last_modified: Some(5),
    }
}

#[test]
fn a_read_through_describes_the_object() {
    let m = through_meta(&reply(), 48).unwrap();
    assert_eq!((m.total_len, m.object_len, m.body_start), (16, 100, 48));
    assert_eq!(m.e_tag.as_deref(), Some("tag"));
    assert_eq!(m.content_type.as_deref(), Some("t"));
    assert_eq!(m.last_modified_epoch_secs, Some(5));
    assert!(!m.served_via_rdma);
    let bare = ThroughReply { content_range: None, e_tag: None, ..reply() };
    assert_eq!(through_meta(&bare, 0).unwrap().object_len, 16);
    for content_length in [None, Some(-1)] {
        let s = through_meta(&ThroughReply { content_length, ..reply() }, 0).unwrap_err();
        assert_eq!(s.code, PeerCode::Internal);
        assert_eq!(s.message, "backend GET without content length");
    }
}

#[test]
fn a_relay_fills_only_a_whole_chunk() {
    let mut pump = Pump::new(meta(6), true);
    let first = pump.relay(Bytes::from_static(b"abc"));
    assert!(first.meta.is_some());
    assert_eq!(first.data, Bytes::from_static(b"abc"));
    assert!(!pump.requester_left(), "a fill goes on without its requester");
    let second = pump.relay(Bytes::from_static(b"def"));
    assert!(second.meta.is_none());
    match pump.pump_read_through() {
        PumpEnd::Fill(body) => assert_eq!(body, Bytes::from_static(b"abcdef")),
        other => panic!("{other:?}"),
    }

    let mut short = Pump::new(meta(6), true);
    short.relay(Bytes::from_static(b"abc"));
    assert!(matches!(short.pump_read_through(), PumpEnd::Abort));

    let mut broken = Pump::new(meta(3), true);
    broken.relay(Bytes::from_static(b"abc"));
    broken.backend_broke();
    assert!(matches!(broken.pump_read_through(), PumpEnd::Abort));

    let mut streamed = Pump::new(meta(3), false);
    streamed.relay(Bytes::from_static(b"abc"));
    assert!(streamed.requester_left(), "without a fill there is nothing to go on for");
    assert!(matches!(streamed.pump_read_through(), PumpEnd::Relayed));
}

#[test]
fn every_refusal_has_its_label_and_its_place_on_the_wire() {
    let cases = [
        (
            StoreRefusal::BudgetExhausted { staged: 3, budget: 4 },
            "budget_exhausted",
            WireRefusal {
                reason: RefusalReason::BudgetExhausted,
                staged_bytes: 3,
                budget_bytes: 4,
            },
        ),
        (
            StoreRefusal::RacingUpload,
            "racing_upload",
            WireRefusal { reason: RefusalReason::RacingUpload, staged_bytes: 0, budget_bytes: 0 },
        ),
        (
            StoreRefusal::OversizedForBudget { chunk_len: 1, budget: 4 },
            "oversized_for_budget",
            WireRefusal {
                reason: RefusalReason::OversizedForBudget,
                staged_bytes: 9,
                budget_bytes: 4,
            },
        ),
        (
            StoreRefusal::NotAccepting,
            "not_accepting",
            WireRefusal { reason: RefusalReason::NotAccepting, staged_bytes: 0, budget_bytes: 0 },
        ),
        (
            StoreRefusal::Unknown,
            "unknown",
            WireRefusal { reason: RefusalReason::Unspecified, staged_bytes: 0, budget_bytes: 0 },
        ),
    ];
    for (refusal, label, wire) in cases {
        assert_eq!(refusal_label(&refusal), label);
        let answer = refusal_response(&refusal, 9);
        assert_eq!(answer.refusal, Some(wire));
        assert_eq!(answer.e_tag, None);
    }
}

#[test]
fn an_offered_chunk_is_uploaded_or_refused() {
    match store_chunk(None, 5) {
        StoreStep::Refuse(why, answer) => {
            assert_eq!(why, StoreRefusal::NotAccepting);
            assert_eq!(answer.refusal.unwrap().reason, RefusalReason::NotAccepting);
        }
        other => panic!("{other:?}"),
    }
    assert!(matches!(store_chunk(Some(StageOutcome::Staged), 5), StoreStep::Upload));
    assert!(
        matches!(store_chunk(Some(StageOutcome::AlreadyStaged), 5), StoreStep::Upload),
        "the coordinator lacks the entity tag"
    );
    match store_chunk(Some(StageOutcome::Refused(StoreRefusal::RacingUpload)), 5) {
        StoreStep::Refuse(why, _) => assert_eq!(why, StoreRefusal::RacingUpload),
        other => panic!("{other:?}"),
    }
}

#[test]
fn a_failed_upload_gives_its_reservation_back() {
    let mut staging = StagingArea::new(100, Span::from_secs(900));
    let t0 = Moment { nanos: 0 };
    staging.try_stage_at("k#0", "up", Bytes::from_static(b"abc"), t0);
    staging.try_stage_at("k#1", "up", Bytes::from_static(b"de"), t0);
    let ok = part_uploaded(&mut staging, "k#0", Ok("tag".to_owned())).unwrap();
    assert_eq!(ok.e_tag.as_deref(), Some("tag"));
    assert_eq!(ok.refusal, None);
    assert_eq!(staging.staged_bytes(), 5);
    let bad = part_uploaded(&mut staging, "k#0", Err("down".to_owned())).unwrap_err();
    assert_eq!(bad.code, PeerCode::Internal);
    assert_eq!(bad.message, "upload_part failed: down");
    assert_eq!(staging.staged_bytes(), 2);
    assert_eq!(
        part_e_tag(None, -3).unwrap_err(),
        "UploadPart returned no ETag for part -3"
    );
    assert_eq!(
        part_e_tag(None, 12).unwrap_err(),
        "UploadPart returned no ETag for part 12"
    );
    assert_eq!(part_e_tag(Some("t".to_owned()), 1).unwrap(), "t");
}

#[test]
fn an_upload_is_published_or_dropped_whole() {
    let mut staging = StagingArea::new(100, Span::from_secs(900));
    let t0 = Moment { nanos: 0 };
    staging.try_stage_at("k#0", "up-1", Bytes::from_static(b"abc"), t0);
    staging.try_stage_at("k#1", "up-2", Bytes::from_static(b"de"), t0);
    let (chunks, committed) = commit_upload(&mut staging, "up-1");
    assert_eq!(committed, 1);
    assert_eq!(chunks, vec![("k#0".to_owned(), Bytes::from_static(b"abc"))]);
    assert_eq!(discard_upload(&mut staging, "up-1"), 0);
    assert_eq!(discard_upload(&mut staging, "up-2"), 1);
    assert_eq!(staging.pending_count(), 0);
}

#[test]
fn an_unknown_tier_is_taken_for_the_slower_one() {
    assert_eq!(announce(true, Some(WireTier::Dram)), Announced::Evict);
    assert_eq!(announce(false, Some(WireTier::Dram)), Announced::Enter(Tier::Dram));
    for tier in [None, Some(WireTier::Unspecified), Some(WireTier::Nvme)] {
        assert_eq!(announce(false, tier), Announced::Enter(Tier::Nvme));
    }
}

#[test]
fn sharers_are_told_in_the_directorys_order() {
    let holder = |name: &str, tier, generation| Holder { node: name.to_owned(), tier, generation };
    let told = lookup_sharers(Some((
        vec![holder("b", Tier::Nvme, 2), holder("a", Tier::Dram, 1)],
        true,
    )));
    assert!(told.widely_held);
    assert_eq!(told.sharers[0].node, "b");
    assert_eq!(told.sharers[0].tier, WireTier::Nvme);
    assert_eq!(told.sharers[1].generation, 1);
    assert_eq!(told.sharers[1].tier, WireTier::Dram);
    let none = lookup_sharers(None);
    assert!(none.sharers.is_empty() && !none.widely_held);
}

// ---- settings ----

#[test]
fn the_settings_start_from_their_defaults() {
    let p = PacerProxy::new(10, Some(20), ChunkConfig::new(16), 8);
    assert_eq!(p.backend_type, BackendType::Express);
    assert!(!p.scatter && p.conditional_get_from_cache);
    assert_eq!(p.scatter_min_object_bytes, 128 << 20);
    let mut bucket = "alias".to_owned();
    p.map_bucket(&mut bucket);
    assert_eq!(bucket, "alias", "without aliases every bucket is itself");
    let pair = |a: &str, b: &str| (a.to_owned(), b.to_owned());
    let p = p
        .with_conditional_get_from_cache(false)
        .with_backend_type(BackendType::Standard)
        .with_scatter(7)
        .with_bucket_map(BucketMap::of_pairs(vec![
            pair("alias", "old"),
            pair("real", "other"),
            pair("alias", "real"),
        ]));
    assert!(p.scatter && !p.conditional_get_from_cache);
    assert_eq!(p.scatter_min_object_bytes, 7);
    assert_eq!(p.backend_type, BackendType::Standard);
    p.map_bucket(&mut bucket);
    assert_eq!(bucket, "real", "the later pair counts, and one step is made");
    assert_eq!((p.min_object_size, p.max_object_size, p.fill_parallelism), (10, Some(20), 8));
}

#[test]
fn the_width_of_a_delivery_latches() {
    assert_eq!(chunk_in_flight(0, 0), (1, 1));
    assert_eq!(chunk_in_flight(1, 5), (2, 5));
    assert_eq!(chunk_in_flight(5, 5), (6, 6));
}
