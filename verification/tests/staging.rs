use bytes::Bytes;
use pacer_daemon::clock::{Moment, Span};
use pacer_daemon::scatter::StoreRefusal;
use pacer_daemon::staging::{StageOutcome, StagingArea};

/// Chunk size for the tests, small enough to make budget arithmetic legible.
const CHUNK: usize = 100;
/// Room for exactly three chunks, so the fourth is the interesting one.
const BUDGET: usize = 3 * CHUNK;

/// Long enough that nothing expires unless a test advances the clock itself.
fn ttl() -> Span {
    Span::from_secs(900)
}

fn area() -> StagingArea {
    StagingArea::new(BUDGET, ttl())
}

fn chunk() -> Bytes {
    Bytes::from(vec![7u8; CHUNK])
}

/// Offer a chunk at the start of time.
fn try_stage(a: &mut StagingArea, key: &str, upload: &str, body: Bytes) -> StageOutcome {
    a.try_stage_at(key, upload, body, Moment { nanos: 0 })
}

#[test]
fn staging_holds_bytes_and_commit_hands_them_back() {
    let mut a = area();
    assert_eq!(try_stage(&mut a, "k#0", "up-1", chunk()), StageOutcome::Staged);
    assert_eq!(a.staged_bytes(), CHUNK);
    let committed = a.commit("up-1");
    assert_eq!(committed.len(), 1);
    assert_eq!(committed[0].0, "k#0");
    assert_eq!(committed[0].1.len(), CHUNK);
    assert_eq!(committed[0].1, chunk());
    assert_eq!(a.staged_bytes(), 0, "commit must free the budget");
}

#[test]
fn a_full_budget_refuses_instead_of_waiting() {
    let mut a = area();
    for i in 0..3 {
        assert_eq!(
            try_stage(&mut a, &format!("k#{i}"), "up-1", chunk()),
            StageOutcome::Staged
        );
    }
    assert_eq!(
        try_stage(&mut a, "k#3", "up-1", chunk()),
        StageOutcome::Refused(StoreRefusal::BudgetExhausted {
            staged: BUDGET as u64,
            budget: BUDGET as u64,
        })
    );
    assert_eq!(a.pending_count(), 3, "a refusal stores nothing");
    assert_eq!(a.budget_bytes(), BUDGET);
}

#[test]
fn the_staged_bytes_peak_latches_and_does_not_fall_back() {
    let mut a = area();
    for i in 0..3 {
        try_stage(&mut a, &format!("k#{i}"), "up-1", chunk());
    }
    assert_eq!(a.staged_bytes(), BUDGET);
    assert_eq!(
        a.staged_bytes_peak(),
        BUDGET,
        "the peak follows the residency up"
    );
    // A refusal must not raise it: the bytes were never held.
    assert!(matches!(
        try_stage(&mut a, "k#3", "up-1", chunk()),
        StageOutcome::Refused(_)
    ));
    assert_eq!(a.staged_bytes_peak(), BUDGET, "a refusal stages nothing");

    a.commit("up-1");
    assert_eq!(a.staged_bytes(), 0, "commit frees the budget");
    assert_eq!(
        a.staged_bytes_peak(),
        BUDGET,
        "the peak must survive the commit"
    );

    try_stage(&mut a, "k#4", "up-2", chunk());
    assert_eq!(a.staged_bytes(), CHUNK);
    assert_eq!(
        a.staged_bytes_peak(),
        BUDGET,
        "a shallower later residency must not lower the mark"
    );
}

#[test]
fn budget_recovers_after_a_commit() {
    let mut a = area();
    for i in 0..3 {
        try_stage(&mut a, &format!("k#{i}"), "up-1", chunk());
    }
    assert!(matches!(
        try_stage(&mut a, "k#3", "up-2", chunk()),
        StageOutcome::Refused(_)
    ));
    a.commit("up-1");
    assert_eq!(try_stage(&mut a, "k#3", "up-2", chunk()), StageOutcome::Staged);
}

#[test]
fn a_chunk_larger_than_the_budget_is_not_transient() {
    let mut a = StagingArea::new(CHUNK - 1, ttl());
    let outcome = try_stage(&mut a, "k#0", "up-1", chunk());
    let StageOutcome::Refused(refusal) = outcome else {
        panic!("expected a refusal");
    };
    assert_eq!(
        refusal,
        StoreRefusal::OversizedForBudget {
            chunk_len: CHUNK as u64,
            budget: (CHUNK - 1) as u64,
        }
    );
    assert!(!refusal.is_transient());
    assert!(StoreRefusal::RacingUpload.is_transient());
}

#[test]
fn re_offering_the_same_upload_is_idempotent() {
    let mut a = area();
    assert_eq!(try_stage(&mut a, "k#0", "up-1", chunk()), StageOutcome::Staged);
    assert_eq!(
        try_stage(&mut a, "k#0", "up-1", chunk()),
        StageOutcome::AlreadyStaged
    );
    assert_eq!(a.staged_bytes(), CHUNK, "a retry must not charge twice");
}

#[test]
fn a_second_upload_of_the_same_key_is_refused() {
    let mut a = area();
    try_stage(&mut a, "k#0", "up-1", chunk());
    assert_eq!(
        try_stage(&mut a, "k#0", "up-2", chunk()),
        StageOutcome::Refused(StoreRefusal::RacingUpload)
    );
}

#[test]
fn release_frees_a_failed_part_at_once() {
    let mut a = area();
    try_stage(&mut a, "k#0", "up-1", chunk());
    assert!(a.release("k#0"));
    assert_eq!(a.staged_bytes(), 0);
    assert!(!a.release("k#0"), "releasing twice must not underflow");
}

#[test]
fn discard_is_scoped_to_one_upload() {
    let mut a = area();
    try_stage(&mut a, "k#0", "up-1", chunk());
    try_stage(&mut a, "k#1", "up-2", chunk());
    assert_eq!(a.discard("up-1"), 1);
    assert_eq!(a.pending_count(), 1);
    assert_eq!(a.staged_bytes(), CHUNK);
    assert_eq!(a.commit("up-2").len(), 1);
}

#[test]
fn commit_is_scoped_to_one_upload() {
    let mut a = area();
    try_stage(&mut a, "k#0", "up-1", chunk());
    try_stage(&mut a, "k#1", "up-2", chunk());
    let committed = a.commit("up-1");
    assert_eq!(committed.len(), 1);
    assert_eq!(committed[0].0, "k#0");
    assert_eq!(a.pending_count(), 1);
}

#[test]
fn reaping_frees_chunks_a_dead_coordinator_abandoned() {
    let mut a = area();
    let t0 = Moment { nanos: 5 };
    let half = Span { nanos: ttl().nanos / 2 };
    a.try_stage_at("k#0", "up-1", chunk(), t0);
    a.try_stage_at("k#1", "up-1", chunk(), t0.plus(ttl()));
    assert!(a.reap_at(t0.plus(half)).is_empty(), "nothing expired yet");
    let reaped = a.reap_at(t0.plus(ttl()));
    assert_eq!(reaped, vec!["k#0".to_owned()]);
    assert_eq!(a.staged_bytes(), CHUNK, "only the expired entry freed");
    assert_eq!(a.pending_count(), 1);
}

/// However offers of several writers interleave, every one that was taken is in the byte
/// total exactly once, and the budget holds.
#[test]
fn interleaved_offers_keep_the_budget_exact() {
    let mut a = area();
    let mut staged = 0;
    for i in 0..16 {
        for writer in 0..8 {
            let key = format!("k#{writer}-{i}");
            if try_stage(&mut a, &key, "up-1", chunk()) == StageOutcome::Staged {
                staged += 1;
            }
        }
    }
    assert_eq!(staged * CHUNK, a.staged_bytes());
    assert_eq!(a.pending_count(), staged);
    assert!(a.staged_bytes() <= BUDGET);
    assert_eq!(staged, 3);
}

/// A chunk with no bytes is staged even where the budget is full.
#[test]
fn an_empty_chunk_fits_a_full_budget() {
    let mut a = area();
    for i in 0..3 {
        try_stage(&mut a, &format!("k#{i}"), "up-1", chunk());
    }
    assert_eq!(try_stage(&mut a, "k#3", "up-1", Bytes::new()), StageOutcome::Staged);
    assert_eq!(a.staged_bytes(), BUDGET);
    assert_eq!(a.pending_count(), 4);
}
