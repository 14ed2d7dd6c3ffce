use bytes::Bytes;
use pacer_daemon::answer::{ErrorCode, ObjectHeader};
use pacer_daemon::chunk::ChunkConfig;
use pacer_daemon::read::{
    cacheable_shape, first_step, get_output, head_failure, header_from_head, header_step,
    if_match_allows_cache, range_parts, range_step, says_absent, slice_for, ETag, ETagCondition,
    FirstStep, GetShape, HeaderStep, HttpRange, ReadDecision,
};

/// Our own ETag, as a resolved header stores it: unquoted.
const OURS: &str = "d41d8cd98f00b204e9800998ecf8427e";

/// The condition as s3s parses it off the wire, so these cases exercise the real parser
/// rather than a string this test invented.
fn condition(header_value: &str) -> ETagCondition {
    match s3s::dto::ETagCondition::parse_http_header(header_value.as_bytes())
        .expect("the fixture must be a header s3s accepts")
    {
        s3s::dto::ETagCondition::Any => ETagCondition::Any,
        s3s::dto::ETagCondition::ETag(s3s::dto::ETag::Strong(t)) => {
            ETagCondition::ETag(ETag::Strong(t))
        }
        s3s::dto::ETagCondition::ETag(s3s::dto::ETag::Weak(t)) => {
            ETagCondition::ETag(ETag::Weak(t))
        }
    }
}

#[test]
fn no_condition_is_always_cacheable() {
    assert!(if_match_allows_cache(None, Some(OURS)));
    assert!(if_match_allows_cache(None, None));
}

#[test]
fn the_etag_the_client_named_matches_ours() {
    assert!(if_match_allows_cache(
        Some(&condition(&format!("\"{OURS}\""))),
        Some(OURS)
    ));
}

#[test]
fn a_different_etag_falls_through_rather_than_matching() {
    assert!(!if_match_allows_cache(
        Some(&condition("\"something-else\"")),
        Some(OURS)
    ));
}

#[test]
fn star_is_satisfied_by_having_resolved_a_header_at_all() {
    assert!(if_match_allows_cache(Some(&ETagCondition::Any), Some(OURS)));
    assert!(if_match_allows_cache(Some(&ETagCondition::Any), None));
    assert!(if_match_allows_cache(Some(&condition("*")), None));
}

#[test]
fn a_weak_validator_never_matches() {
    assert!(!if_match_allows_cache(
        Some(&condition(&format!("W/\"{OURS}\""))),
        Some(OURS)
    ));
    // And the variant directly, so the case survives a change in what s3s parses.
    assert!(!if_match_allows_cache(
        Some(&ETagCondition::ETag(ETag::Weak(OURS.to_owned()))),
        Some(OURS)
    ));
}

#[test]
fn no_etag_of_our_own_is_undecidable_and_passes_through() {
    assert!(!if_match_allows_cache(
        Some(&condition(&format!("\"{OURS}\""))),
        None
    ));
}

#[test]
fn a_multipart_composite_etag_matches_like_any_other() {
    let composite = "4fcec74691ff529f6d016ec3629ff11b-5";
    assert!(if_match_allows_cache(
        Some(&condition(&format!("\"{composite}\""))),
        Some(composite)
    ));
}

fn plain() -> GetShape {
    GetShape {
        if_none_match: false,
        if_modified_since: false,
        if_unmodified_since: false,
        version_id: false,
        sse_customer_algorithm: false,
    }
}

#[test]
fn only_a_plain_get_is_cacheable() {
    assert!(cacheable_shape(&plain()));
    let none_match = GetShape { if_none_match: true, ..plain() };
    let modified = GetShape { if_modified_since: true, ..plain() };
    let unmodified = GetShape { if_unmodified_since: true, ..plain() };
    let version = GetShape { version_id: true, ..plain() };
    let key = GetShape { sse_customer_algorithm: true, ..plain() };
    for shape in [none_match, modified, unmodified, version, key] {
        assert!(!cacheable_shape(&shape));
        assert_eq!(
            first_step(false, ReadDecision::CacheAndFill, &shape),
            FirstStep::PassThrough
        );
    }
}

#[test]
fn a_question_for_endpoints_comes_before_everything() {
    assert_eq!(
        first_step(true, ReadDecision::Bypass, &plain()),
        FirstStep::AnswerEndpoints
    );
    assert_eq!(
        first_step(false, ReadDecision::Bypass, &plain()),
        FirstStep::PassThrough
    );
    assert_eq!(
        first_step(false, ReadDecision::CacheNoFill, &plain()),
        FirstStep::ResolveHeader
    );
}

#[test]
fn an_unmet_condition_passes_through() {
    let named = ETagCondition::ETag(ETag::Strong("other".to_owned()));
    let step = header_step(
        true,
        Some(&named),
        Some(OURS),
        true,
        ReadDecision::CacheAndFill,
        true,
        true,
    );
    assert_eq!(step, HeaderStep::PassThrough { conditional_served: false });
    // A node that serves no conditional read from its cache passes a met one through too.
    let ours = ETagCondition::ETag(ETag::Strong(OURS.to_owned()));
    let off = header_step(
        false,
        Some(&ours),
        Some(OURS),
        true,
        ReadDecision::CacheAndFill,
        true,
        true,
    );
    assert_eq!(off, HeaderStep::PassThrough { conditional_served: false });
}

#[test]
fn a_header_is_remembered_by_an_owner_that_fills() {
    let fresh = |owns: bool, decision: ReadDecision| match header_step(
        true, None, Some(OURS), true, decision, false, owns,
    ) {
        HeaderStep::Serve { remember_header, may_fill, .. } => (remember_header, may_fill),
        other => panic!("{other:?}"),
    };
    assert_eq!(fresh(true, ReadDecision::CacheAndFill), (true, true));
    assert_eq!(fresh(false, ReadDecision::CacheAndFill), (false, true));
    assert_eq!(fresh(true, ReadDecision::CacheNoFill), (false, false));
}

#[test]
fn a_head_owes_a_length() {
    let h = header_from_head(Some(7), Some("\"abc\""), Some("text/plain"), Some(9)).unwrap();
    assert_eq!(h.object_len, 7);
    assert_eq!(h.e_tag.as_deref(), Some("abc"));
    assert_eq!(h.content_type.as_deref(), Some("text/plain"));
    assert_eq!(h.last_modified_epoch_secs, Some(9));
    for length in [None, Some(-1)] {
        let f = header_from_head(length, None, None, None).unwrap_err();
        assert_eq!(f.code, ErrorCode::InternalError);
    }
}

#[test]
fn a_missing_object_is_told_apart_from_a_failed_head() {
    assert!(says_absent(true, None));
    assert!(says_absent(false, Some("NoSuchKey")));
    assert!(!says_absent(false, Some("AccessDenied")));
    assert!(!says_absent(false, None));
    assert_eq!(head_failure(true, None).code, ErrorCode::NoSuchKey);
    assert_eq!(
        head_failure(true, None).message,
        "The specified key does not exist."
    );
    assert_eq!(head_failure(false, None).code, ErrorCode::InternalError);
}

#[test]
fn an_unsatisfiable_range_is_refused() {
    let range = HttpRange::Suffix { length: 0 };
    assert_eq!(range_parts(&range), (None, None, Some(0)));
    let int = HttpRange::Int { first: 3, last: None };
    assert_eq!(range_parts(&int), (Some(3), None, None));
    let f = range_step(Some(&range), 10, None).unwrap_err();
    assert_eq!(f.code, ErrorCode::InvalidRange);
    assert_eq!(f.message, "The requested range is not satisfiable");
    assert_eq!(range_step(None, 10, None).unwrap(), 0..10);
    assert_eq!(range_step(Some(&int), 10, Some(3..10)).unwrap(), 3..10);
}

/// Every range of an object comes back byte for byte from its chunks, on any grid.
#[test]
fn every_range_comes_back_from_its_chunks() {
    let object: Vec<u8> = (0..23).collect();
    for size in 1..26u64 {
        let chunk = ChunkConfig::new(size);
        for start in 0..23u64 {
            for end in start + 1..24 {
                let mut body = Vec::new();
                for index in chunk.covering(start, end) {
                    let span = chunk.chunk_bounds(index, 23).unwrap();
                    let cached =
                        Bytes::copy_from_slice(&object[span.start as usize..span.end as usize]);
                    body.extend_from_slice(&slice_for(&cached, index * size, start, end));
                }
                assert_eq!(body, &object[start as usize..end as usize]);
            }
        }
    }
}

#[test]
fn a_chunk_outside_the_range_gives_nothing() {
    let body = Bytes::from_static(b"abcdef");
    assert!(slice_for(&body, 10, 0, 5).is_empty());
    assert!(slice_for(&body, 0, 6, 9).is_empty());
    assert_eq!(slice_for(&body, 10, 12, 14), Bytes::from_static(b"cd"));
}

#[test]
fn a_response_describes_its_range() {
    let header = ObjectHeader {
        object_len: 100,
        e_tag: Some("tag".to_owned()),
        content_type: Some("application/x".to_owned()),
        last_modified_epoch_secs: Some(-5),
    };
    let out = get_output(&header, 10, 20, true);
    assert_eq!(out.content_length, 10);
    assert_eq!(out.content_range.as_deref(), Some("bytes 10-19/100"));
    assert_eq!(out.accept_ranges.as_deref(), Some("bytes"));
    assert_eq!(out.e_tag.as_deref(), Some("tag"));
    assert_eq!(out.content_type.as_deref(), Some("application/x"));
    assert_eq!(out.last_modified, Some(0), "no time before the epoch is told");
    let whole = get_output(&header, 0, 100, false);
    assert_eq!(whole.content_length, 100);
    assert_eq!(whole.content_range, None);
}
