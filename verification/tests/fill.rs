use bytes::Bytes;
use pacer_daemon::answer::{failure, ErrorCode};
use pacer_daemon::chunk::ChunkConfig;
use pacer_daemon::cluster::NodeId;
use pacer_daemon::fill::{
    announce_target, chunk_read, collect_blob, fetch_leading, fill_ctx, finish_fill,
    maybe_admit_local, note_read_failure, note_read_retries, AfterRead, FillClaim, FillCtx,
    FillGuard, FillRegistry, LocalCopy, PeerAnswer, ReadFault, Resolve, ServedFrom,
    READ_FAILURE_EXHAUSTED, READ_FAILURE_PERMANENT,
};
use pacer_daemon::read::ReadDecision;

type Part = Result<Bytes, String>;

fn parts(list: &[&'static [u8]]) -> Vec<Part> {
    list.iter().map(|p| Ok(Bytes::from_static(p))).collect()
}

#[test]
fn collect_blob_passes_a_single_item_through_without_copying() {
    let original = Bytes::from(vec![7u8; 4096]);
    let ptr = original.as_ptr();
    let stream: Vec<Part> = vec![Ok(original)];
    let got = collect_blob(stream, 4096).unwrap();
    assert_eq!(got.len(), 4096);
    assert_eq!(got.as_ptr(), ptr, "single-item stream must not be recopied");
}

#[test]
fn collect_blob_concatenates_a_multi_item_stream() {
    let got = collect_blob(parts(&[b"abc", b"de", b"f"]), 6).unwrap();
    assert_eq!(&got[..], b"abcdef");
}

#[test]
fn collect_blob_handles_an_empty_stream() {
    let got = collect_blob(parts(&[]), 0).unwrap();
    assert!(got.is_empty());
}

/// A stream that breaks gives its first error, however much came before.
#[test]
fn collect_blob_fails_with_the_first_error() {
    for broken_at in 0..4 {
        let mut stream = parts(&[b"a", b"b", b"c", b"d"]);
        stream[broken_at] = Err(format!("broke at {broken_at}"));
        stream.push(Err("later".to_owned()));
        assert_eq!(collect_blob(stream, 9).unwrap_err(), format!("broke at {broken_at}"));
    }
}

const A_CHUNK_KEY: &str = "bucket/obj#16777216:0";

#[test]
fn fill_guard_second_claim_of_a_live_key_is_refused() {
    let mut registry = FillRegistry::new();

    let first = FillGuard::for_fill(&mut registry, A_CHUNK_KEY)
        .expect("claiming a fresh key must succeed");
    assert_eq!(registry.len(), 1);
    assert!(
        FillGuard::for_fill(&mut registry, A_CHUNK_KEY).is_none(),
        "a second claim of the same key while the first guard is alive must be refused"
    );

    first.release(&mut registry);
    assert_eq!(registry.len(), 0);
    assert_eq!(
        registry.abandoned(),
        1,
        "dropping without complete() must count as abandoned"
    );
}

#[test]
fn fill_guard_complete_suppresses_the_abandoned_counter() {
    let mut registry = FillRegistry::new();

    let mut guard = FillGuard::for_fill(&mut registry, A_CHUNK_KEY)
        .expect("claiming a fresh key must succeed");
    guard.complete();
    guard.release(&mut registry);

    assert_eq!(registry.len(), 0);
    assert_eq!(
        registry.abandoned(),
        0,
        "a fill that completed normally must not count as abandoned"
    );
}

#[test]
fn a_second_arrival_is_handed_the_leaders_bytes() {
    let mut registry = FillRegistry::new();

    let FillClaim::Lead(leader) = registry.claim_fill(A_CHUNK_KEY) else {
        panic!("the first claim of a free key must lead");
    };
    let FillClaim::Follow = registry.claim_fill(A_CHUNK_KEY) else {
        panic!("a claim taken while a leader is fetching must follow it");
    };

    let filled = Bytes::from_static(b"the leader's chunk");
    assert!(
        leader.publish(&mut registry, &filled),
        "what is published goes to those who follow"
    );
    finish_fill(&mut registry, leader);

    let ctx = ctx(true, true);
    match ctx.waited(Some(filled.clone())) {
        Resolve::Serve { body, from } => {
            assert_eq!(body, filled);
            assert_eq!(from, ServedFrom::Flight);
        }
        other => panic!("{other:?}"),
    }
    assert_eq!(registry.len(), 0);
    assert_eq!(registry.abandoned(), 0);
}

#[test]
fn bytes_published_before_the_claim_is_released_are_taken_without_waiting() {
    let mut registry = FillRegistry::new();

    let FillClaim::Lead(leader) = registry.claim_fill(A_CHUNK_KEY) else {
        panic!("the first claim of a free key must lead");
    };
    let filled = Bytes::from_static(b"published, not yet inserted");
    leader.publish(&mut registry, &filled);

    match registry.claim_fill(A_CHUNK_KEY) {
        FillClaim::Ready(bytes) => assert_eq!(bytes, filled),
        _ => panic!("an arrival after the publish must be served without waiting"),
    }
}

#[test]
fn a_leader_that_publishes_nothing_wakes_its_follower_empty_handed() {
    let mut registry = FillRegistry::new();

    let FillClaim::Lead(leader) = registry.claim_fill(A_CHUNK_KEY) else {
        panic!("the first claim of a free key must lead");
    };
    let FillClaim::Follow = registry.claim_fill(A_CHUNK_KEY) else {
        panic!("a claim taken while a leader is fetching must follow it");
    };

    leader.release(&mut registry);
    assert!(
        !registry.is_claimed(A_CHUNK_KEY),
        "and it must leave the key free for the follower's own fill"
    );
    assert!(matches!(ctx(true, true).waited(None), Resolve::Read(AfterRead::Fill)));
    assert_eq!(registry.abandoned(), 1);
}

#[test]
fn an_exclusive_claim_is_never_waited_on() {
    let mut registry = FillRegistry::new();

    let _exclusive = FillGuard::for_fill(&mut registry, A_CHUNK_KEY)
        .expect("claiming a fresh key must succeed");
    assert!(
        matches!(registry.claim_fill(A_CHUNK_KEY), FillClaim::Busy),
        "a publishing claim must not wait on a holder that publishes nothing"
    );
}

#[test]
fn publishing_on_an_exclusive_claim_changes_nothing() {
    let mut registry = FillRegistry::new();

    let exclusive = FillGuard::for_fill(&mut registry, A_CHUNK_KEY)
        .expect("claiming a fresh key must succeed");
    assert!(!exclusive.publish(&mut registry, &Bytes::from_static(b"nobody asked for these")));
    assert!(
        matches!(registry.claim_fill(A_CHUNK_KEY), FillClaim::Busy),
        "an exclusive claim must stay exclusive"
    );
}

#[test]
fn claims_on_different_keys_are_independent() {
    let mut registry = FillRegistry::new();

    let _first = registry.claim_fill(A_CHUNK_KEY);
    let second = registry.claim_fill("bucket/obj#16777216:1");
    assert!(
        matches!(second, FillClaim::Lead(_)),
        "a different chunk of the same object must lead its own fill"
    );
    assert_eq!(
        registry.len(),
        2,
        "two keys claimed at once is what keeps one GET's chunks concurrent"
    );
}

/// What a leader publishes twice is what it published first.
#[test]
fn a_second_publish_changes_nothing() {
    let mut registry = FillRegistry::new();
    let FillClaim::Lead(leader) = registry.claim_fill("k") else {
        panic!("leads");
    };
    assert!(leader.publish(&mut registry, &Bytes::from_static(b"one")));
    assert!(!leader.publish(&mut registry, &Bytes::from_static(b"two")));
    let FillClaim::Ready(got) = registry.claim_fill("k") else {
        panic!("ready");
    };
    assert_eq!(got, Bytes::from_static(b"one"));
}

fn ctx(owns: bool, coalesce: bool) -> FillCtx {
    fill_ctx(owns, coalesce, ReadDecision::CacheAndFill, 2)
}

#[test]
fn the_flags_of_a_read_follow_its_decision() {
    let fills = fill_ctx(true, true, ReadDecision::CacheAndFill, 0);
    assert!(fills.may_fill && !fills.no_fill);
    let keeps_out = fill_ctx(true, true, ReadDecision::CacheNoFill, 0);
    assert!(!keeps_out.may_fill && keeps_out.no_fill);
    let bypass = fill_ctx(true, true, ReadDecision::Bypass, 0);
    assert!(!bypass.may_fill && !bypass.no_fill);
}

#[test]
fn a_chunk_is_resolved_in_tier_order() {
    let hit = Bytes::from_static(b"hit");
    assert!(matches!(
        ctx(true, true).resolve_chunk(Some(hit)),
        Resolve::Serve { from: ServedFrom::Cache, .. }
    ));
    assert!(matches!(ctx(true, true).resolve_chunk(None), Resolve::Claim));
    assert!(matches!(
        ctx(true, false).resolve_chunk(None),
        Resolve::Read(AfterRead::Fill)
    ));
    assert!(matches!(ctx(false, true).resolve_chunk(None), Resolve::Ask(0)));
    let alone = fill_ctx(false, true, ReadDecision::CacheAndFill, 0);
    assert!(matches!(
        alone.resolve_chunk(None),
        Resolve::Read(AfterRead::Serve)
    ));
}

#[test]
fn a_peer_that_fails_is_never_the_clients_error() {
    let c = ctx(false, true);
    let (step, counted) = c.fetch_from_peer(0, PeerAnswer::NotCached);
    assert!(matches!(step, Resolve::Ask(1)));
    assert!(!counted, "a source without the chunk is passed over in silence");
    let (step, counted) = c.fetch_from_peer(1, PeerAnswer::Failed);
    assert!(matches!(step, Resolve::Read(AfterRead::Serve)), "nothing is kept");
    assert!(counted);
    let (step, counted) = c.fetch_from_peer(0, PeerAnswer::Broken);
    assert!(matches!(step, Resolve::Ask(1)));
    assert!(counted);
    let (step, counted) = c.fetch_from_peer(1, PeerAnswer::Blob(Bytes::from_static(b"x")));
    assert!(matches!(step, Resolve::Serve { from: ServedFrom::Peer, .. }));
    assert!(!counted);
}

#[test]
fn a_claim_decides_who_reads() {
    let mut registry = FillRegistry::new();
    let c = ctx(true, true);
    let Resolve::Read(AfterRead::Lead { guard, keep }) = c.claimed(registry.claim_fill("k"))
    else {
        panic!("the first arrival leads");
    };
    assert!(keep);
    assert!(matches!(c.claimed(registry.claim_fill("k")), Resolve::Await));
    let (body, guard, told) =
        fetch_leading(&mut registry, guard, Ok(Bytes::from_static(b"bytes"))).unwrap();
    assert_eq!(body, Bytes::from_static(b"bytes"));
    assert!(told);
    assert!(matches!(
        c.claimed(registry.claim_fill("k")),
        Resolve::Serve { from: ServedFrom::Flight, .. }
    ));
    finish_fill(&mut registry, guard);
    assert_eq!(registry.len(), 0);
    assert_eq!(registry.abandoned(), 0);
    let held = FillGuard::for_fill(&mut registry, "k").unwrap();
    assert!(matches!(
        c.claimed(registry.claim_fill("k")),
        Resolve::Read(AfterRead::Fill)
    ));
    held.release(&mut registry);
}

/// A read that forbids keeping still leads and publishes, and keeps nothing.
#[test]
fn a_read_without_fill_leads_and_keeps_nothing() {
    let mut registry = FillRegistry::new();
    let c = fill_ctx(true, true, ReadDecision::CacheNoFill, 0);
    let Resolve::Read(AfterRead::Lead { keep, .. }) = c.claimed(registry.claim_fill("k")) else {
        panic!("leads");
    };
    assert!(!keep);
    assert!(matches!(c.waited(None), Resolve::Read(AfterRead::Serve)));
}

#[test]
fn a_leader_whose_read_fails_gives_its_claim_back() {
    let mut registry = FillRegistry::new();
    let FillClaim::Lead(guard) = registry.claim_fill("k") else {
        panic!("leads");
    };
    let f = fetch_leading(
        &mut registry,
        guard,
        Err(failure(ErrorCode::InternalError, "down")),
    )
    .unwrap_err();
    assert_eq!(f.message, "down");
    assert!(!registry.is_claimed("k"));
    assert_eq!(registry.abandoned(), 1);
    // A claim that was completed is not cut short.
    let FillClaim::Lead(mut guard) = registry.claim_fill("k") else {
        panic!("leads");
    };
    guard.complete();
    let late = Err(failure(ErrorCode::InternalError, "down"));
    assert!(fetch_leading(&mut registry, guard, late).is_err());
    assert!(!registry.is_claimed("k"));
    assert_eq!(registry.abandoned(), 1);
}

#[test]
fn a_peers_chunk_is_kept_once_it_is_hot() {
    assert_eq!(maybe_admit_local(true, true, None, None), LocalCopy::Skip);
    assert_eq!(maybe_admit_local(false, false, None, None), LocalCopy::Skip);
    assert_eq!(maybe_admit_local(false, true, None, None), LocalCopy::AskHeat);
    assert_eq!(maybe_admit_local(false, true, Some(None), None), LocalCopy::Skip);
    assert_eq!(maybe_admit_local(false, true, Some(Some(4)), None), LocalCopy::Claim);
    assert_eq!(
        maybe_admit_local(false, true, Some(Some(4)), Some(false)),
        LocalCopy::Skip
    );
    assert_eq!(
        maybe_admit_local(false, true, Some(Some(4)), Some(true)),
        LocalCopy::Keep { generation: 4 }
    );
    let homes = [NodeId::new("a".to_owned()), NodeId::new("b".to_owned())];
    assert_eq!(announce_target(&homes).unwrap().name(), "a");
    assert!(announce_target(&[]).is_none());
}

#[test]
fn a_chunk_past_the_object_is_an_internal_error() {
    let chunk = ChunkConfig::new(10);
    assert_eq!(chunk_read(&chunk, 2, 25).unwrap(), 20..25);
    let f = chunk_read(&chunk, 3, 25).unwrap_err();
    assert_eq!(f.code, ErrorCode::InternalError);
    assert_eq!(f.message, "chunk index past object end");
}

#[test]
fn a_failed_read_is_counted_unless_the_key_is_missing() {
    assert_eq!(note_read_retries(0), 0);
    assert_eq!(note_read_retries(1), 0);
    assert_eq!(note_read_retries(5), 4);
    let missing = note_read_failure(ReadFault::Missing, 1);
    assert_eq!(missing.failure.code, ErrorCode::NoSuchKey);
    assert_eq!(missing.outcome, None);
    let out = note_read_failure(ReadFault::Exhausted, 4);
    assert_eq!(out.failure.code, ErrorCode::InternalError);
    assert_eq!(out.failure.message, "backend chunk read failed");
    assert_eq!(out.outcome, Some(READ_FAILURE_EXHAUSTED));
    assert_eq!(out.retries, 3);
    let permanent = note_read_failure(ReadFault::Permanent, 0);
    assert_eq!(permanent.outcome, Some(READ_FAILURE_PERMANENT));
    assert_eq!(permanent.retries, 0);
    assert_eq!(READ_FAILURE_EXHAUSTED, "exhausted");
    assert_eq!(READ_FAILURE_PERMANENT, "permanent");
}
