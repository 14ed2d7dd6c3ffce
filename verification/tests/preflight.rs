use pacer_daemon::answer::ErrorCode;
use pacer_daemon::chunk::ChunkConfig;
use pacer_daemon::cluster::{chunk_sources, NodeId};
use pacer_daemon::preflight::{
    answer, document, endpoint_windows, endpoints_of, escape, hex, holder_names, malformed,
    max_endpoint_nodes, names_of_sources, outcome, response, windows_to_ask, EndpointsAsk,
    HolderEndpoints, Rails, ENDPOINTS_HEADER, ENDPOINTS_VERSION, MAX_ENDPOINT_NODES,
    OUTCOME_NO_PLANE, OUTCOME_SERVED,
};

/// 16 MiB, the shipped chunk size, so the window arithmetic below is the one production runs.
const CHUNK: u64 = 16 << 20;

fn chunk() -> ChunkConfig {
    ChunkConfig::new(CHUNK)
}

#[test]
fn the_marker_value_parses() {
    assert_eq!(EndpointsAsk::parse("").unwrap(), EndpointsAsk::default());
    assert_eq!(
        EndpointsAsk::parse("offset=1048576").unwrap(),
        EndpointsAsk {
            offset: 1_048_576,
            length: None
        }
    );
    assert_eq!(
        EndpointsAsk::parse("offset=1048576;length=8388608").unwrap(),
        EndpointsAsk {
            offset: 1_048_576,
            length: Some(8_388_608)
        }
    );
    assert_eq!(
        EndpointsAsk::parse("length=16 ; offset=32").unwrap(),
        EndpointsAsk {
            offset: 32,
            length: Some(16)
        }
    );
}

#[test]
fn an_unusable_marker_value_says_why() {
    for raw in [
        "offset",
        "offset=",
        "offset=wat",
        "offset=-1",
        "length=1.5",
        "first=0",
        "offset=0;stride=4",
    ] {
        let err = EndpointsAsk::parse(raw).expect_err(&format!("{raw:?} should be refused"));
        assert!(!err.is_empty(), "{raw:?} must say why");
    }
}

#[test]
fn the_node_cap_is_never_zero() {
    assert_eq!(max_endpoint_nodes(0), 1);
    assert_eq!(max_endpoint_nodes(64), 64);
    assert_eq!(
        MAX_ENDPOINT_NODES, 64,
        "the documented bound must equal the shipped delivery.parallelism"
    );
}

#[test]
fn a_whole_object_read_looks_at_the_bound_and_no_further() {
    let windows = endpoint_windows(EndpointsAsk::default(), &chunk(), 64);
    assert_eq!(windows, 0..64);
    // And from the middle of an object, the same width from where the read starts.
    let from_middle = endpoint_windows(
        EndpointsAsk {
            offset: 100 * CHUNK,
            length: None,
        },
        &chunk(),
        64,
    );
    assert_eq!(from_middle, 100..164);
}

#[test]
fn a_short_read_names_only_its_own_windows() {
    // Exactly two chunks.
    assert_eq!(
        endpoint_windows(
            EndpointsAsk {
                offset: 0,
                length: Some(2 * CHUNK)
            },
            &chunk(),
            64
        ),
        0..2
    );
    // One byte still touches one chunk, never zero.
    assert_eq!(
        endpoint_windows(
            EndpointsAsk {
                offset: 0,
                length: Some(1)
            },
            &chunk(),
            64
        ),
        0..1
    );
    assert_eq!(
        endpoint_windows(
            EndpointsAsk {
                offset: 0,
                length: Some(0)
            },
            &chunk(),
            64
        ),
        0..1,
        "a zero-length read must not produce an EMPTY window range, which would name only \
         this node"
    );
    // A range starting and ending mid-chunk touches both.
    assert_eq!(
        endpoint_windows(
            EndpointsAsk {
                offset: CHUNK / 2,
                length: Some(CHUNK)
            },
            &chunk(),
            64
        ),
        0..2
    );
    // And a read LONGER than the bound is still truncated to it.
    assert_eq!(
        endpoint_windows(
            EndpointsAsk {
                offset: 0,
                length: Some(1000 * CHUNK)
            },
            &chunk(),
            8
        ),
        0..8
    );
}

#[test]
fn extreme_asks_saturate_rather_than_wrap() {
    let windows = endpoint_windows(
        EndpointsAsk {
            offset: u64::MAX,
            length: Some(u64::MAX),
        },
        &chunk(),
        64,
    );
    assert!(windows.start <= windows.end, "{windows:?}");
    let capped = endpoint_windows(EndpointsAsk::default(), &chunk(), usize::MAX);
    assert!(capped.start <= capped.end, "{capped:?}");
}

/// The last position there is has none after it, and is asked for without wrapping.
#[test]
fn the_last_position_of_all_is_asked_for() {
    let bytewise = ChunkConfig::new(1);
    let last = EndpointsAsk { offset: u64::MAX, length: Some(u64::MAX) };
    assert_eq!(endpoint_windows(last, &bytewise, 64), u64::MAX..u64::MAX);
    let before = EndpointsAsk { offset: u64::MAX - 1, length: Some(0) };
    assert_eq!(endpoint_windows(before, &bytewise, 64), u64::MAX - 1..u64::MAX);
    let asked = windows_to_ask("offset=18446744073709551615;length=9", &bytewise, 64).unwrap();
    assert_eq!(asked, u64::MAX..u64::MAX);
}

/// One rail as a node announces it: the version, the count, the GID, the QPN and the rail.
fn rails(gid: u8, qpn: u32) -> Vec<u8> {
    let mut out = vec![1u8, 1u8];
    out.extend_from_slice(&[gid; 16]);
    out.extend_from_slice(&qpn.to_be_bytes());
    out.extend_from_slice(&[0u8, 0u8]);
    out
}

#[test]
fn the_document_a_client_parses_is_exactly_this() {
    let json = document(&[
        HolderEndpoints {
            node: "ip-10-0-1-5".to_owned(),
            local: true,
            announce: rails(0xab, 16_384),
        },
        HolderEndpoints {
            node: "ip-10-0-2-9".to_owned(),
            local: false,
            announce: rails(0xcd, 49_153),
        },
    ]);
    let expected = [
        r#"{"version":1,"plane":"efa","nodes":["#,
        r#"{"node":"ip-10-0-1-5","local":true,"announce":"0101"#,
        "abababababababababababababababab", // the GID, 16 bytes
        "00004000",                         // QPN 16384
        r#"0000"},"#,                       // rail 0
        r#"{"node":"ip-10-0-2-9","local":false,"announce":"0101"#,
        "cdcdcdcdcdcdcdcdcdcdcdcdcdcdcdcd",
        "0000c001", // QPN 49153
        r#"0000"}]}"#,
    ]
    .join("");
    assert_eq!(json, expected);
}

#[test]
fn no_endpoints_is_a_defined_answer_not_an_error() {
    assert_eq!(document(&[]), r#"{"version":1,"plane":"none","nodes":[]}"#);
}

#[test]
fn the_answer_is_marked_and_carries_no_object_metadata() {
    let json = document(&[]);
    let resp = response(&json);
    assert_eq!(
        resp.extra,
        vec![(ENDPOINTS_HEADER.to_owned(), ENDPOINTS_VERSION.to_string())]
    );
    assert_eq!(resp.content_length, json.len() as i64);
    assert_eq!(resp.content_type.as_deref(), Some("application/json"));
    assert!(
        resp.e_tag.is_none()
            && resp.last_modified.is_none()
            && resp.accept_ranges.is_none()
            && resp.content_range.is_none(),
        "no object header was resolved, so none of these are known — and a 206's \
         Content-Range in particular must be absent"
    );
}

#[test]
fn hex_is_lowercase_and_two_per_byte() {
    assert_eq!(hex(&[0x00, 0x01, 0x0f, 0xa0, 0xff]), "00010fa0ff");
    assert_eq!(hex(&[]), "");
}

#[test]
fn strings_are_escaped_for_json() {
    assert_eq!(escape("ip-10-0-1-5"), "ip-10-0-1-5");
    assert_eq!(escape("a\"b\\c"), "a\\\"b\\\\c");
    assert_eq!(escape("a\nb"), "a\\nb");
    assert_eq!(escape("a\u{1}b"), "a\\u0001b");
}

/// Each fault of a marker value is told in its own words, with the text in question quoted.
#[test]
fn a_fault_quotes_what_it_is_about() {
    assert_eq!(
        EndpointsAsk::parse("offset").unwrap_err(),
        "\"offset\" is not name=value"
    );
    let unknown = EndpointsAsk::parse("first=0").unwrap_err();
    assert_eq!(unknown, "unknown field \"first\" in x-pacer-get-endpoints");
    let bad = EndpointsAsk::parse("offset=wat").unwrap_err();
    assert!(bad.contains("\"wat\""), "{bad}");
}

#[test]
fn a_malformed_ask_is_the_clients_error() {
    let f = windows_to_ask("first=0", &chunk(), 64).unwrap_err();
    assert_eq!(f.code, ErrorCode::InvalidRequest);
    assert_eq!(
        f.message,
        "x-pacer-get-endpoints: unknown field \"first\" in x-pacer-get-endpoints"
    );
    assert_eq!(malformed("why").message, "x-pacer-get-endpoints: why");
    assert_eq!(windows_to_ask("offset=0", &chunk(), 0).unwrap(), 0..1);
}

fn node(name: &str) -> NodeId {
    NodeId::new(name.to_owned())
}

/// This node comes first, every other once, and no more than the cap.
#[test]
fn the_sources_are_named_once_behind_this_node() {
    let sources = vec![
        vec![node("b"), node("a")],
        vec![node("me"), node("b"), node("c")],
        vec![node("d")],
    ];
    assert_eq!(names_of_sources("me", &sources, 64), vec!["me", "b", "a", "c", "d"]);
    assert_eq!(names_of_sources("me", &sources, 3), vec!["me", "b", "a"]);
    assert_eq!(names_of_sources("me", &[], 1), vec!["me"]);
}

/// Whatever the turn of each window's homes, the same nodes are named.
#[test]
fn the_homes_of_every_window_are_named() {
    let homes = vec![vec![node("a"), node("b")], vec![node("c"), node("me")]];
    let mut names = holder_names("me", &chunk(), "bucket/key", 0, homes, 64);
    assert_eq!(names[0], "me");
    names.sort();
    assert_eq!(names, vec!["a", "b", "c", "me"]);
}

/// A full answer names those that a read asks first, in the order in which it asks them.
#[test]
fn the_read_asks_whom_the_question_names() {
    let homes = || vec![node("a"), node("b"), node("c"), node("d")];
    for index in [0, 7, 8] {
        let key = chunk().chunk_key("bucket/key", index);
        let asked = chunk_sources(homes(), "me", &key);
        let named = holder_names("me", &chunk(), "bucket/key", index, vec![homes()], 3);
        assert_eq!(named[0], "me");
        assert_eq!(named[1], asked[0].name());
        assert_eq!(named[2], asked[1].name());
        assert_eq!(named.len(), 3);
    }
}

/// A holder whose addresses are not known yet is left out. A node that does not know its
/// own answers with nobody.
#[test]
fn only_known_addresses_are_answered() {
    let listed = || vec!["me".to_owned(), "a".to_owned(), "b".to_owned()];
    let known = endpoints_of(
        "me",
        listed(),
        vec![
            Rails::Announce(vec![1]),
            Rails::Unnegotiated,
            Rails::Announce(vec![2]),
        ],
    );
    assert_eq!(known.len(), 2);
    assert_eq!(known[0].node, "me");
    assert!(known[0].local);
    assert_eq!(known[1].node, "b");
    assert!(!known[1].local);
    assert_eq!(known[1].announce, vec![2]);
    let none = endpoints_of(
        "me",
        listed(),
        vec![Rails::Unknown, Rails::Announce(vec![1]), Rails::Announce(vec![2])],
    );
    assert!(none.is_empty());
}

#[test]
fn the_outcome_tells_an_empty_answer_apart() {
    assert_eq!(outcome(0), OUTCOME_NO_PLANE);
    assert_eq!(outcome(1), OUTCOME_SERVED);
    let empty = answer(&[]);
    assert_eq!(empty.outcome, OUTCOME_NO_PLANE);
    assert_eq!(empty.nodes, 0);
    let one = answer(&[HolderEndpoints {
        node: "a".to_owned(),
        local: true,
        announce: vec![0xff],
    }]);
    assert_eq!(one.outcome, OUTCOME_SERVED);
    assert_eq!(one.nodes, 1);
    assert_eq!(
        one.body,
        r#"{"version":1,"plane":"efa","nodes":[{"node":"a","local":true,"announce":"ff"}]}"#
    );
    assert_eq!(one.output.content_length, one.body.len() as i64);
}
