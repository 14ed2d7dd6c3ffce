use pacer_daemon::answer::ErrorCode;
use pacer_daemon::chunk::ChunkConfig;
use pacer_daemon::cluster::{Holder, NodeId, Tier};
use pacer_daemon::scatter::ScatterVerdict;
use pacer_daemon::write::{
    after_head, check_parts, forwarded_md5, invalidation_keys, invalidation_targets,
    key_already_exists, length_step, part_numbers_ok, put_framing, remote_targets, scatter_failure,
    scatter_gate, told_length, unreproducible_client_checksum, verdict_label, BackendType, Decline,
    Gate, LengthStep, PutFacts,
};

#[test]
fn express_requires_consecutive_parts_standard_allows_gaps() {
    // Express: consecutive from 1 only, in any order.
    assert!(part_numbers_ok(&[1, 2, 3], BackendType::Express));
    assert!(part_numbers_ok(&[3, 1, 2], BackendType::Express)); // set {1,2,3}
    assert!(!part_numbers_ok(&[1, 3], BackendType::Express)); // gap → reject
    assert!(!part_numbers_ok(&[2], BackendType::Express)); // must start at 1
    assert!(!part_numbers_ok(&[], BackendType::Express)); // empty invalid

    // Standard: ascending with gaps is valid; only non-ascending / empty /
    // < 1 is rejected.
    assert!(part_numbers_ok(&[1, 3, 5], BackendType::Standard));
    assert!(part_numbers_ok(&[2, 7], BackendType::Standard));
    assert!(part_numbers_ok(&[1], BackendType::Standard));
    assert!(!part_numbers_ok(&[3, 1], BackendType::Standard)); // not ascending
    assert!(!part_numbers_ok(&[1, 1], BackendType::Standard)); // duplicate
    assert!(!part_numbers_ok(&[0, 1], BackendType::Standard)); // part < 1
    assert!(!part_numbers_ok(&[], BackendType::Standard)); // empty invalid
}

#[test]
fn a_part_list_out_of_order_is_refused() {
    assert!(check_parts(None, BackendType::Express).is_ok());
    assert!(check_parts(Some(&[2, 1]), BackendType::Express).is_ok());
    let f = check_parts(Some(&[2, 1]), BackendType::Standard).unwrap_err();
    assert_eq!(f.code, ErrorCode::InvalidPartOrder);
    assert_eq!(
        f.message,
        "part numbers must be ascending (Express: consecutive from 1)"
    );
    assert!(check_parts(Some(&[1, 1, 2]), BackendType::Express).is_err());
    assert!(check_parts(Some(&[]), BackendType::Standard).is_err());
}

/// Build a header map from `(name, value)` pairs.
fn headers(pairs: &[(&str, &str)]) -> hyper::HeaderMap {
    let mut map = hyper::HeaderMap::new();
    for (name, value) in pairs {
        map.insert(
            hyper::header::HeaderName::from_bytes(name.as_bytes()).unwrap(),
            hyper::header::HeaderValue::from_str(value).unwrap(),
        );
    }
    map
}

#[test]
fn put_framing_reports_the_streaming_trailer_shape() {
    let line = put_framing(&headers(&[
        ("content-length", "16777770"),
        ("content-encoding", "aws-chunked"),
        ("x-amz-decoded-content-length", "16777216"),
        ("x-amz-content-sha256", "STREAMING-UNSIGNED-PAYLOAD-TRAILER"),
        ("x-amz-sdk-checksum-algorithm", "CRC32"),
        ("x-amz-trailer", "x-amz-checksum-crc32"),
    ]));
    assert!(line.contains("content-encoding=aws-chunked"), "{line}");
    assert!(
        line.contains("x-amz-decoded-content-length=16777216"),
        "{line}"
    );
    assert!(
        line.contains("x-amz-trailer=x-amz-checksum-crc32"),
        "{line}"
    );
    assert!(
        line.contains("x-amz-content-sha256=STREAMING-UNSIGNED-PAYLOAD-TRAILER"),
        "{line}"
    );
}

#[test]
fn put_framing_reports_the_in_memory_header_shape_and_omits_what_is_absent() {
    let line = put_framing(&headers(&[
        ("content-length", "4294967296"),
        ("x-amz-checksum-crc32", "q1FlJw=="),
        ("x-amz-sdk-checksum-algorithm", "CRC32"),
    ]));
    assert!(line.contains("x-amz-checksum-crc32=q1FlJw=="), "{line}");
    assert!(line.contains("content-length=4294967296"), "{line}");
    // Nothing framed it as chunked, so those names must be absent rather than
    // present-and-empty — the line has to read as what the client really sent.
    assert!(!line.contains("content-encoding"), "{line}");
    assert!(!line.contains("x-amz-trailer"), "{line}");
    assert!(!line.contains("x-amz-decoded-content-length"), "{line}");
}

#[test]
fn put_framing_never_logs_a_credential() {
    let line = put_framing(&headers(&[
        ("content-length", "1024"),
        (
            "authorization",
            "AWS4-HMAC-SHA256 Credential=AKIAEXAMPLE/20260826/us-east-2/s3/aws4_request, \
             SignedHeaders=host, Signature=deadbeef",
        ),
        ("x-amz-security-token", "FwoGZXIvYXdzEXAMPLETOKEN"),
    ]));
    assert_eq!(line, "content-length=1024");
}

#[test]
fn put_framing_of_no_framing_headers_is_empty() {
    assert_eq!(put_framing(&headers(&[("host", "127.0.0.1:9000")])), "");
}

/// A value that is no text is reported with replacement characters, and a name with
/// several values by its first.
#[test]
fn put_framing_takes_values_as_they_come() {
    let mut map = hyper::HeaderMap::new();
    map.insert(
        hyper::header::HeaderName::from_static("content-encoding"),
        hyper::header::HeaderValue::from_bytes(b"a\xffb").unwrap(),
    );
    assert_eq!(put_framing(&map), "content-encoding=a\u{fffd}b");
    let mut twice = hyper::HeaderMap::new();
    let name = || hyper::header::HeaderName::from_static("content-encoding");
    twice.append(name(), hyper::header::HeaderValue::from_static("one"));
    twice.append(name(), hyper::header::HeaderValue::from_static("two"));
    assert_eq!(put_framing(&twice), "content-encoding=one");
}

const MIB: u64 = 1 << 20;

fn put(content_length: Option<i64>) -> PutFacts {
    PutFacts {
        content_length,
        content_md5: false,
        checksum_crc32c: false,
        checksum_crc64nvme: false,
        checksum_sha1: false,
        checksum_sha256: false,
    }
}

fn gate_of(scatters: bool, facts: &PutFacts) -> Gate {
    scatter_gate(scatters, facts, &ChunkConfig::new(16 * MIB), 128 * MIB, 256 * MIB)
}

#[test]
fn the_free_checks_come_in_order() {
    let large = 200 * MIB;
    let good = put(Some(large as i64));
    assert_eq!(gate_of(false, &good), Gate::Off);
    assert_eq!(gate_of(true, &good), Gate::AskBackend { object_len: large });
    assert_eq!(
        gate_of(true, &put(None)),
        Gate::Declined(Decline::NoContentLength)
    );
    let digest = PutFacts { content_md5: true, ..put(Some(1)) };
    assert!(unreproducible_client_checksum(&digest));
    assert_eq!(gate_of(true, &digest), Gate::Declined(Decline::ClientChecksum));
    assert_eq!(
        gate_of(true, &put(Some(1))),
        Gate::Declined(Decline::Verdict(ScatterVerdict::TooSmall))
    );
    assert!(!unreproducible_client_checksum(&good));
}

#[test]
fn an_occupied_or_unknown_key_is_not_overwritten_in_parts() {
    assert!(key_already_exists(true, false, None));
    assert!(!key_already_exists(false, true, None));
    assert!(!key_already_exists(false, false, Some("NoSuchKey")));
    assert!(key_already_exists(false, false, Some("AccessDenied")), "not known to be free");
    assert_eq!(after_head(true, true), Some(Decline::Overwrite));
    assert_eq!(after_head(false, false), Some(Decline::NoBody));
    assert_eq!(after_head(false, true), None);
}

#[test]
fn every_decline_has_a_label_of_its_own() {
    assert_eq!(Decline::NoContentLength.label(), "no_content_length");
    assert_eq!(Decline::ClientChecksum.label(), "client_checksum");
    assert_eq!(Decline::Overwrite.label(), "overwrite");
    assert_eq!(Decline::NoBody.label(), "no_body");
    assert_eq!(Decline::Verdict(ScatterVerdict::TooSmall).label(), "too_small");
    assert_eq!(
        verdict_label(ScatterVerdict::TooManyParts { needed: 2, ceiling: 1 }),
        "too_many_parts"
    );
    assert_eq!(
        verdict_label(ScatterVerdict::ChunkBelowPartMinimum),
        "chunk_below_part_minimum"
    );
    assert_eq!(
        verdict_label(ScatterVerdict::ChunkAbovePeerMessageLimit),
        "chunk_above_peer_message_limit"
    );
}

#[test]
fn a_failed_scatter_says_whose_fault_it_is() {
    assert_eq!(scatter_failure(true).code, ErrorCode::BadDigest);
    assert_eq!(scatter_failure(false).code, ErrorCode::InternalError);
    assert_eq!(scatter_failure(false).message, "scattered write failed");
}

#[test]
fn an_express_backend_is_sent_no_md5() {
    let md5 = || Some("x".to_owned());
    assert_eq!(forwarded_md5(BackendType::Express, md5()), None);
    assert_eq!(forwarded_md5(BackendType::Standard, md5()), md5());
}

#[test]
fn the_length_of_an_overwritten_object_is_learned() {
    assert_eq!(length_step(Some(5), true), LengthStep::Known(Some(5)));
    assert_eq!(length_step(None, false), LengthStep::Known(None));
    assert_eq!(length_step(None, true), LengthStep::AskBackend);
    assert_eq!(told_length(Some(5)), Some(5));
    assert_eq!(told_length(Some(-5)), None);
    assert_eq!(told_length(None), None);
}

#[test]
fn every_chunk_of_the_old_object_is_dropped() {
    let chunk = ChunkConfig::new(10);
    assert_eq!(
        invalidation_keys(&chunk, "b/k", Some(21)),
        vec!["b/k", "b/k#10:0", "b/k#10:1", "b/k#10:2"]
    );
    assert_eq!(invalidation_keys(&chunk, "b/k", Some(20)).len(), 3);
    assert_eq!(invalidation_keys(&chunk, "b/k", None), vec!["b/k"]);
}

fn node(name: &str) -> NodeId {
    NodeId::new(name.to_owned())
}

fn holder(name: &str, tier: Tier) -> Holder {
    Holder { node: name.to_owned(), tier, generation: 1 }
}

fn listed(nodes: &[NodeId]) -> Vec<String> {
    nodes.iter().map(|n| n.name().to_owned()).collect()
}

/// The homes are told, and every holder that the directory knows and the ring has.
#[test]
fn every_holder_of_the_old_object_is_told() {
    let members = [node("a"), node("b"), node("c"), node("me")];
    let told = invalidation_targets(
        vec![node("a")],
        "me",
        &members,
        Some(vec![
            holder("b", Tier::Nvme),
            holder("c", Tier::Dram),
            holder("gone", Tier::Dram),
            holder("me", Tier::Dram),
            holder("a", Tier::Dram),
        ]),
    );
    let names = listed(&told);
    assert_eq!(names[0], "a");
    for want in ["a", "b", "c"] {
        assert_eq!(names.iter().filter(|n| *n == want).count(), 1, "{names:?}");
    }
    assert!(!names.contains(&"gone".to_owned()));
    assert_eq!(listed(&remote_targets(vec![node("me"), node("a")], "me")), vec!["a"]);
}
