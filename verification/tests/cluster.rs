use pacer_daemon::chunk::{
    content_range_total, object_key, object_key_parts, parse_chunk_key, ChunkConfig,
};
use pacer_daemon::cluster::{
    append_holders, chunk_sources, home_offset, is_home, lists, member, owns, rotate_homes,
    sorted_by_tier, Holder, NodeId, Tier,
};

fn node(name: &str) -> NodeId {
    NodeId::new(name.to_owned())
}

fn names(nodes: &[NodeId]) -> Vec<String> {
    nodes.iter().map(|n| n.name().to_owned()).collect()
}

#[test]
fn a_ring_without_homes_makes_every_node_one() {
    assert!(is_home(&[], "a"));
    assert!(is_home(&[node("b"), node("a")], "a"));
    assert!(!is_home(&[node("b")], "a"));
    assert!(owns(None, "a"));
    assert!(!owns(Some(&[node("b")]), "a"));
    assert!(lists(&[node("a")], "a"));
    assert!(!lists(&[], "a"));
}

#[test]
fn sources_are_the_homes_from_some_turn_on() {
    let homes = || vec![node("a"), node("b"), node("c")];
    assert_eq!(names(&rotate_homes(homes(), 1)), vec!["b", "c", "a"]);
    assert_eq!(names(&rotate_homes(homes(), 0)), vec!["a", "b", "c"]);
    let mut got = names(&chunk_sources(homes(), "me", "b/k#10:0"));
    assert_eq!(got, names(&chunk_sources(homes(), "me", "b/k#10:0")), "one process, one order");
    got.sort();
    assert_eq!(got, vec!["a", "b", "c"]);
    assert!(chunk_sources(vec![], "me", "k").is_empty());
}

/// The readers of one chunk do not all turn to the same home.
#[test]
fn readers_spread_over_the_homes() {
    let mut seen = vec![false; 3];
    for i in 0..64 {
        seen[home_offset(&format!("node-{i}"), "b/k#10:0", 3)] = true;
    }
    assert_eq!(seen, vec![true; 3]);
}

fn holder(name: &str, tier: Tier) -> Holder {
    Holder { node: name.to_owned(), tier, generation: 7 }
}

#[test]
fn memory_is_asked_before_disk() {
    let sorted = sorted_by_tier(vec![
        holder("a", Tier::Nvme),
        holder("b", Tier::Dram),
        holder("c", Tier::Nvme),
        holder("d", Tier::Dram),
    ]);
    let order: Vec<&str> = sorted.iter().map(|h| h.node.as_str()).collect();
    assert_eq!(order, vec!["b", "d", "a", "c"]);
}

#[test]
fn only_members_are_merged_and_only_once() {
    let members = [node("a"), node("b"), node("me")];
    let mut nodes = vec![node("a")];
    append_holders(
        "me",
        &members,
        vec![
            holder("b", Tier::Dram),
            holder("a", Tier::Dram),
            holder("x", Tier::Dram),
            holder("me", Tier::Dram),
            holder("b", Tier::Nvme),
        ],
        &mut nodes,
    );
    assert_eq!(names(&nodes), vec!["a", "b"]);
    assert_eq!(member(&members, "b").map(|n| n.name().to_owned()), Some("b".to_owned()));
    assert!(member(&members, "x").is_none());
}

#[test]
fn a_chunk_key_reads_back_whatever_the_object_is_called() {
    let chunk = ChunkConfig::new(16 << 20);
    for object in ["bucket/key", "bucket/a#b:c", "bucket/#1:2", "b/"] {
        let key = chunk.chunk_key(object, 42);
        assert_eq!(parse_chunk_key(&key), Some((object.to_owned(), 42)));
    }
    assert_eq!(chunk.chunk_key("b/k", 3), "b/k#16777216:3");
    assert_eq!(parse_chunk_key("no-mark"), None);
    assert_eq!(parse_chunk_key("k#16"), None);
    assert_eq!(parse_chunk_key("k#16:x"), None);
    assert_eq!(parse_chunk_key("k#16:18446744073709551616"), None, "it does not fit");
}

#[test]
fn an_object_key_splits_at_its_first_slash() {
    assert_eq!(object_key("b", "a/c"), "b/a/c");
    assert_eq!(object_key_parts("b/a/c"), Some(("b".to_owned(), "a/c".to_owned())));
    assert_eq!(object_key_parts("nothing"), None);
}

#[test]
fn a_content_range_tells_the_whole() {
    assert_eq!(content_range_total(Some("bytes 0-9/100")), Some(100));
    assert_eq!(content_range_total(Some("bytes 0-9/*")), None);
    assert_eq!(content_range_total(Some("bytes 0-9")), None);
    assert_eq!(content_range_total(None), None);
}

#[test]
fn the_grid_covers_an_object() {
    let chunk = ChunkConfig::new(10);
    assert_eq!(chunk.chunk_count(0), 0);
    assert_eq!(chunk.chunk_count(20), 2);
    assert_eq!(chunk.chunk_count(21), 3);
    assert_eq!(chunk.chunk_bounds(2, 21), Some(20..21));
    assert_eq!(chunk.chunk_bounds(3, 21), None);
    assert_eq!(chunk.covering(9, 11), 0..2);
    assert_eq!(chunk.covering(10, 20), 1..2);
    assert_eq!(chunk.chunk_bounds(u64::MAX, u64::MAX), None);
}
