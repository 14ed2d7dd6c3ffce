use bytes::Bytes;
use pacer_daemon::chunk::ChunkConfig;
use pacer_daemon::clock::{Moment, Span};
use pacer_daemon::cluster::NodeId;
use pacer_daemon::scatter::{
    scatter_verdict, SaturationTracker, ScatterConfig, ScatterPlan, ScatterVerdict, StoreRefusal,
    WindowSplitter, MAX_S3_PARTS, MIN_S3_PART_SIZE,
};

const WINDOW: usize = 8;

fn bytes(range: std::ops::Range<u8>) -> Bytes {
    Bytes::from(range.collect::<Vec<u8>>())
}

#[test]
fn a_large_source_buffer_yields_windows_without_loss() {
    let mut s = WindowSplitter::new(WINDOW);
    s.push(bytes(0..20));
    assert_eq!(s.take_window().unwrap(), bytes(0..8));
    assert_eq!(s.take_window().unwrap(), bytes(8..16));
    assert!(s.take_window().is_none(), "4 bytes left is not a window");
    assert_eq!(s.take_tail().unwrap(), bytes(16..20));
    assert!(s.take_tail().is_none());
}

#[test]
fn windows_stitch_across_many_small_buffers() {
    let mut s = WindowSplitter::new(WINDOW);
    for i in 0..10u8 {
        s.push(Bytes::from(vec![i]));
    }
    assert_eq!(s.take_window().unwrap(), bytes(0..8));
    assert!(s.take_window().is_none());
    assert_eq!(s.take_tail().unwrap(), bytes(8..10));
}

#[test]
fn an_exact_multiple_has_no_tail() {
    let mut s = WindowSplitter::new(WINDOW);
    s.push(bytes(0..16));
    assert_eq!(s.take_window().unwrap(), bytes(0..8));
    assert_eq!(s.take_window().unwrap(), bytes(8..16));
    assert!(s.take_window().is_none());
    assert!(
        s.take_tail().is_none(),
        "an exact multiple must not emit an empty final part"
    );
}

#[test]
fn empty_source_buffers_are_ignored() {
    let mut s = WindowSplitter::new(WINDOW);
    s.push(Bytes::new());
    s.push(bytes(0..4));
    s.push(Bytes::new());
    s.push(bytes(4..8));
    assert_eq!(s.carried(), 8);
    assert_eq!(s.take_window().unwrap(), bytes(0..8));
}

#[test]
fn carried_tracks_exactly_what_is_held() {
    let mut s = WindowSplitter::new(WINDOW);
    s.push(bytes(0..12));
    assert_eq!(s.carried(), 12);
    s.take_window().unwrap();
    assert_eq!(s.carried(), 4);
    s.take_tail().unwrap();
    assert_eq!(s.carried(), 0);
}

#[test]
fn irregular_framing_reassembles_the_original_body() {
    let original: Vec<u8> = (0..=250).collect();
    let mut s = WindowSplitter::new(WINDOW);
    let mut out = Vec::new();
    let mut offset = 0;
    for frame in [1usize, 7, 3, 64, 2, 100, 74] {
        let end = (offset + frame).min(original.len());
        s.push(Bytes::copy_from_slice(&original[offset..end]));
        offset = end;
        while let Some(w) = s.take_window() {
            assert_eq!(w.len(), WINDOW, "interior windows are always full");
            out.extend_from_slice(&w);
        }
    }
    if let Some(tail) = s.take_tail() {
        out.extend_from_slice(&tail);
    }
    assert_eq!(out, original);
}

#[test]
fn a_load_refusal_expires_and_a_permanent_one_does_not() {
    /// Long enough that the "not yet" assertions cannot flake.
    const COOLDOWN_SECS: u64 = 5;
    let cooldown = Span::from_secs(COOLDOWN_SECS);
    let half = Span { nanos: cooldown.nanos / 2 };
    let long = Span::from_secs(COOLDOWN_SECS * 1000);
    let mut t = SaturationTracker::new();
    let t0 = Moment { nanos: 1_000 };
    assert!(t.may_offer("node-a", t0), "an unknown peer is offerable");

    t.refused(
        "node-a",
        &StoreRefusal::BudgetExhausted {
            staged: 1,
            budget: 1,
        },
        t0,
        cooldown,
    );
    assert!(!t.may_offer("node-a", t0));
    assert!(!t.may_offer("node-a", t0.plus(half)));
    assert!(
        t.may_offer("node-a", t0.plus(cooldown)),
        "a load refusal must clear"
    );
    assert_eq!(
        t.blocked_count(),
        0,
        "the expired entry is dropped as it is read, not left to accumulate"
    );

    t.refused("node-b", &StoreRefusal::NotAccepting, t0, cooldown);
    assert!(!t.may_offer("node-b", t0.plus(long)));
    t.refused("node-c", &StoreRefusal::Unknown, t0, cooldown);
    assert!(
        !t.may_offer("node-c", t0.plus(long)),
        "an unrecognised reason is treated as permanent, never re-probed"
    );
}

#[test]
fn forgetting_a_peer_unblocks_it() {
    let mut t = SaturationTracker::new();
    let t0 = Moment { nanos: 0 };
    t.refused("node-a", &StoreRefusal::NotAccepting, t0, Span::from_secs(1));
    assert!(!t.may_offer("node-a", t0));
    t.forget("node-a");
    assert!(t.may_offer("node-a", t0));
}

/// A forgotten peer is one fewer that is blocked, and stays open until it refuses again.
#[test]
fn forgetting_counts_down_by_one() {
    let mut t = SaturationTracker::new();
    let t0 = Moment { nanos: 0 };
    let long = Span::from_secs(1_000);
    t.refused("node-a", &StoreRefusal::NotAccepting, t0, long);
    t.refused("node-a", &StoreRefusal::RacingUpload, t0, long);
    t.refused("node-b", &StoreRefusal::NotAccepting, t0, long);
    assert_eq!(t.blocked_count(), 2);
    t.forget("node-a");
    assert_eq!(t.blocked_count(), 1);
    t.forget("node-a");
    t.forget("node-c");
    assert_eq!(t.blocked_count(), 1);
    t.refused("node-c", &StoreRefusal::NotAccepting, t0, long);
    assert!(t.may_offer("node-a", t0));
    assert!(!t.may_offer("node-b", t0));
    t.refused("node-a", &StoreRefusal::NotAccepting, t0, long);
    assert!(!t.may_offer("node-a", t0));
}

/// Less than a window is held back, however large the window is.
#[test]
fn a_window_that_is_not_full_is_not_handed_out() {
    let mut s = WindowSplitter::new(usize::MAX);
    assert!(s.take_window().is_none());
    s.push(Bytes::from_static(b"few"));
    assert!(s.take_window().is_none());
    assert_eq!(s.carried(), 3);
    assert_eq!(s.take_tail().as_deref(), Some(&b"few"[..]));
    assert!(s.take_tail().is_none());
}

/// However a body is framed, it is cut into the same windows and the same tail.
#[test]
fn every_framing_cuts_a_body_alike() {
    let body: Vec<u8> = (0..=250).collect();
    for len in [0, WINDOW - 1, WINDOW, 3 * WINDOW, 3 * WINDOW + 1] {
        for frame in [1, 2, WINDOW, 200] {
            let mut s = WindowSplitter::new(WINDOW);
            let mut windows: Vec<Vec<u8>> = Vec::new();
            for part in body[..len].chunks(frame) {
                s.push(Bytes::copy_from_slice(part));
                s.push(Bytes::new());
                while let Some(w) = s.take_window() {
                    windows.push(w.to_vec());
                }
            }
            let full: Vec<Vec<u8>> =
                body[..len].chunks_exact(WINDOW).map(<[u8]>::to_vec).collect();
            assert_eq!(windows, full, "{len} bytes in frames of {frame}");
            let tail = s.take_tail();
            assert_eq!(tail.is_none(), len % WINDOW == 0);
            assert_eq!(tail.map_or(0, |t| t.len()), len % WINDOW);
            assert_eq!(s.carried(), 0);
        }
    }
}

/// Default chunk size, so the verdict tests read against the real grid.
const DEFAULT_CHUNK: u64 = 16 << 20;
/// Default scatter floor.
const MIN_OBJECT: u64 = 128 << 20;
/// The most bytes that one peer message carries.
const PEER_MESSAGE: u64 = 256 << 20;

fn verdict(chunk: &ChunkConfig, object_len: u64) -> ScatterVerdict {
    scatter_verdict(chunk, object_len, MIN_OBJECT, PEER_MESSAGE)
}

#[test]
fn every_decline_names_its_own_reason() {
    let usable = ChunkConfig::new(DEFAULT_CHUNK);
    assert_eq!(verdict(&usable, 1 << 30), ScatterVerdict::Scatter);
    assert_eq!(
        verdict(&usable, MIN_OBJECT - 1),
        ScatterVerdict::TooSmall,
        "below the floor the ETag change buys nothing"
    );
    assert_eq!(
        verdict(&ChunkConfig::new(MIN_S3_PART_SIZE - 1), 1 << 30),
        ScatterVerdict::ChunkBelowPartMinimum
    );
    assert_eq!(
        verdict(&ChunkConfig::new(PEER_MESSAGE + 1), 1 << 30),
        ScatterVerdict::ChunkAbovePeerMessageLimit
    );
}

#[test]
fn only_the_chunk_size_verdicts_are_misconfigurations() {
    let usable = ChunkConfig::new(DEFAULT_CHUNK);
    assert!(!verdict(&usable, MIN_OBJECT - 1).is_misconfiguration());
    assert!(verdict(&ChunkConfig::new(MIN_S3_PART_SIZE - 1), 1 << 30).is_misconfiguration());
    assert!(verdict(&ChunkConfig::new(PEER_MESSAGE + 1), 1 << 30).is_misconfiguration());
}

#[test]
fn the_part_ceiling_is_inclusive_and_far_above_any_real_shard() {
    let chunk = ChunkConfig::new(DEFAULT_CHUNK);
    let ceiling = MAX_S3_PARTS * DEFAULT_CHUNK;
    assert!(verdict(&chunk, ceiling).is_scatter());
    assert_eq!(
        verdict(&chunk, ceiling + 1),
        ScatterVerdict::TooManyParts {
            needed: MAX_S3_PARTS + 1,
            ceiling,
        }
    );
    /// Largest checkpoint shard in the reference corpus, Kimi-K2-Instruct.
    const LARGEST_OBSERVED_SHARD: u64 = 18_082 << 20;
    /// A real 1800 GB training checkpoint over 256 files.
    const CUSTOMER_SHARD: u64 = 6_707 << 20;
    for observed in [LARGEST_OBSERVED_SHARD, CUSTOMER_SHARD] {
        assert!(
            verdict(&chunk, observed).is_scatter(),
            "every shard size actually seen must scatter"
        );
    }
}

/// The floor is inclusive, and the grid is judged before the object.
#[test]
fn the_floor_is_inclusive_and_the_grid_comes_first() {
    let usable = ChunkConfig::new(DEFAULT_CHUNK);
    assert!(verdict(&usable, MIN_OBJECT).is_scatter());
    assert_eq!(
        verdict(&ChunkConfig::new(MIN_S3_PART_SIZE - 1), 0),
        ScatterVerdict::ChunkBelowPartMinimum
    );
    assert!(verdict(&ChunkConfig::new(MIN_S3_PART_SIZE), 1 << 30).is_scatter());
}

#[test]
fn the_scatter_defaults() {
    let c = ScatterConfig::default();
    assert_eq!(c.min_object_bytes, MIN_OBJECT);
}

/// A plan cuts the object into windows that lie end to end, numbered from one, each with
/// the homes of its own chunk.
#[test]
fn a_plan_follows_the_grid() {
    let chunk = ChunkConfig::new(10);
    let a = || NodeId::new("a".to_owned());
    let b = || NodeId::new("b".to_owned());
    let homes = vec![vec![a(), b()], vec![b()], vec![]];
    let plan = ScatterPlan::build(&chunk, "bucket/key", 25, homes);
    assert_eq!(plan.windows.len(), 3);
    assert_eq!(plan.windows[0].part_number, 1);
    assert_eq!(plan.windows[2].part_number, 3);
    assert_eq!(plan.windows[0].bounds(&chunk, 25), Some(0..10));
    assert_eq!(plan.windows[1].bounds(&chunk, 25), Some(10..20));
    assert_eq!(plan.windows[2].bounds(&chunk, 25), Some(20..25));
    assert_eq!(plan.windows[1].chunk_key, "bucket/key#10:1");
    assert_eq!(plan.distinct_homes(), 2);
}
