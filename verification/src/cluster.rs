//! The cluster's view of one key: who homes it, who holds it, and the order in which
//! to ask them.
//!
//! There is one derivation of a chunk's sources. The read path and the pre-flight
//! answer both go through [`chunk_sources`], so a pre-flight never names a holder that
//! the read would not ask.

use std::collections::hash_map::DefaultHasher;
use std::hash::{Hash, Hasher};

use vstd::prelude::*;
use vstd::std_specs::hash::DefaultHasherAdditionalSpecFns;

verus! {

/// A node of the ring, known by its name.
#[derive(Debug)]
pub struct NodeId {
    name: String,
}

impl View for NodeId {
    type V = Seq<char>;

    closed spec fn view(&self) -> Seq<char> {
        self.name@
    }
}

impl NodeId {
    /// The node of that name.
    pub fn new(name: String) -> (n: Self)
        ensures
            n@ == name@,
    {
        NodeId { name }
    }

    /// The node's name.
    pub fn name(&self) -> (r: &str)
        ensures
            r@ == self@,
    {
        self.name.as_str()
    }
}

impl Clone for NodeId {
    fn clone(&self) -> (r: Self)
        ensures
            r@ == self@,
    {
        NodeId { name: self.name.clone() }
    }
}

/// The names of a list of nodes.
pub open spec fn names(nodes: Seq<NodeId>) -> Seq<Seq<char>> {
    nodes.map_values(|n: NodeId| n@)
}

/// The tier in which a holder keeps a chunk, as its directory entry hints.
#[derive(Clone, Copy, Debug, PartialEq, Eq, Structural)]
pub enum Tier {
    /// In memory: the faster to serve from.
    Dram,
    /// On disk.
    Nvme,
}

/// A directory entry: a node that holds a chunk.
#[derive(Debug)]
pub struct Holder {
    /// The holding node's name.
    pub node: String,
    /// Where it holds the chunk.
    pub tier: Tier,
    /// The generation of the entry.
    pub generation: u64,
}

// ---- homes ----

/// Whether `local` is among the homes of a key. Without any home the ring has no
/// owner yet, and every node counts as one.
pub open spec fn at_home(homes: Seq<Seq<char>>, local: Seq<char>) -> bool {
    homes.len() == 0 || homes.contains(local)
}

/// Whether a node of that name is in the list.
pub fn lists(nodes: &[NodeId], name: &str) -> (r: bool)
    ensures
        r == names(nodes@).contains(name@),
{
    let mut i: usize = 0;
    while i < nodes.len()
        invariant
            i <= nodes@.len(),
            forall|j: int| 0 <= j < i ==> names(nodes@)[j] != name@,
        decreases nodes@.len() - i,
    {
        if nodes[i].name().eq(name) {
            assert(names(nodes@)[i as int] == name@);
            return true;
        }
        i += 1;
    }
    false
}

/// Whether `local_node` is a home of the key whose homes are given. Both the read
/// path's ownership checks and the peer server's read-through gate ask this, so both
/// agree.
pub fn is_home(homes: &[NodeId], local_node: &str) -> (r: bool)
    ensures
        r == at_home(names(homes@), local_node@),
{
    homes.len() == 0 || lists(homes, local_node)
}

/// Whether this node fills the key: always without a cluster, and as a home within
/// one. The homes are `None` where the node runs on its own.
pub fn owns(homes: Option<&[NodeId]>, local_node: &str) -> (r: bool)
    ensures
        r == match homes {
            None => true,
            Some(h) => at_home(names(h@), local_node@),
        },
{
    match homes {
        None => true,
        Some(h) => is_home(h, local_node),
    }
}

/// A node is at home for a key exactly where it is listed among the key's homes, at whatever
/// place, or where no home is listed.
pub proof fn a_home_is_a_listed_node(homes: Seq<Seq<char>>, local: Seq<char>, i: int)
    ensures
        homes.len() == 0 ==> at_home(homes, local),
        0 <= i < homes.len() && homes[i] == local ==> at_home(homes, local),
        homes.len() > 0 && (forall|j: int| 0 <= j < homes.len() ==> homes[j] != local) ==> !at_home(
            homes,
            local,
        ),
{
}

// ---- source order ----

/// What a hasher was fed once a text is fed to it too, from what it was fed before.
pub uninterp spec fn fed(before: Seq<Seq<u8>>, text: Seq<char>) -> Seq<Seq<u8>>;

/// `str::hash` feeds a text to a hasher, and equal texts in the same way. What it feeds for
/// a text is not said.
#[verifier::external_body]
fn feed(h: &mut DefaultHasher, text: &str)
    ensures
        final(h)@ == fed(old(h)@, text@),
{
    text.hash(h);
}

/// Where a requester starts among the `len` homes of a chunk: a position that its name and
/// the chunk's key decide, by their hash.
pub open spec fn start_among(local: Seq<char>, key: Seq<char>, len: nat) -> nat {
    (DefaultHasher::spec_finish(fed(fed(Seq::empty(), local), key)) as nat) % len
}

/// Where a requester starts among the `len` homes of a chunk. It is the same each time that
/// it asks, and spreads the readers of one chunk over its homes.
pub fn home_offset(local_node: &str, chunk_key: &str, len: usize) -> (r: usize)
    requires
        len > 0,
    ensures
        r == start_among(local_node@, chunk_key@, len as nat),
        r < len,
{
    let mut h = DefaultHasher::new();
    feed(&mut h, local_node);
    feed(&mut h, chunk_key);
    let x: u64 = h.finish();
    let n: u64 = len as u64;
    let m: u64 = x % n;
    m as usize
}

/// `items`, started from position `offset` and carried on from the front.
pub open spec fn rotation<T>(items: Seq<T>, offset: int) -> Seq<T> {
    items.skip(offset) + items.take(offset)
}

/// The homes, started from position `offset`.
pub fn rotate_homes(homes: Vec<NodeId>, offset: usize) -> (r: Vec<NodeId>)
    requires
        offset <= homes@.len(),
    ensures
        r@ == rotation(homes@, offset as int),
{
    let mut front = homes;
    let mut out = front.split_off(offset);
    out.append(&mut front);
    assert(out@ =~= rotation(homes@, offset as int));
    out
}

/// The peers to ask for a chunk, in order: its homes, started from a position that depends
/// on the requester and the chunk alone.
pub open spec fn sources_of<T>(homes: Seq<T>, local: Seq<char>, key: Seq<char>) -> Seq<T> {
    if homes.len() == 0 {
        homes
    } else {
        rotation(homes, start_among(local, key, homes.len()) as int)
    }
}

/// The peers to ask for a chunk, in order.
pub fn chunk_sources(homes: Vec<NodeId>, local_node: &str, chunk_key: &str) -> (r: Vec<NodeId>)
    ensures
        r@ == sources_of(homes@, local_node@, chunk_key@),
{
    if homes.len() == 0 {
        return homes;
    }
    let offset: usize = home_offset(local_node, chunk_key, homes.len());
    rotate_homes(homes, offset)
}

/// Whoever asks for a chunk asks its homes, each as often as it is listed, and no other node.
pub proof fn every_requester_asks_the_homes<T>(homes: Seq<T>, local: Seq<char>, key: Seq<char>)
    ensures
        sources_of(homes, local, key).to_multiset() == homes.to_multiset(),
        sources_of(homes, local, key).len() == homes.len(),
{
    if homes.len() > 0 {
        rotation_keeps_all(homes, start_among(local, key, homes.len()) as int);
    }
}

/// A requester asks the homes in their cyclic order, from the one on which its name and the
/// chunk's key hash: the home behind the last one asked is the next in the list, and behind the
/// list's end its first.
pub proof fn the_homes_are_asked_in_turn<T>(
    homes: Seq<T>,
    local: Seq<char>,
    key: Seq<char>,
    i: int,
)
    requires
        0 <= i < homes.len(),
    ensures
        ({
            let start = (DefaultHasher::spec_finish(
                fed(fed(Seq::<Seq<u8>>::empty(), local), key),
            ) as int) % (homes.len() as int);
            let asked = sources_of(homes, local, key);
            &&& asked.len() == homes.len()
            &&& asked[i] == if start + i < homes.len() {
                homes[start + i]
            } else {
                homes[start + i - homes.len()]
            }
        }),
{
}

/// A list that is started from any position is the same list in cyclic order.
pub proof fn a_rotation_keeps_the_order<T>(items: Seq<T>, offset: int, i: int)
    requires
        0 <= offset <= items.len(),
        0 <= i < items.len(),
    ensures
        rotation(items, offset).len() == items.len(),
        i < items.len() - offset ==> rotation(items, offset)[i] == items[offset + i],
        i >= items.len() - offset ==> rotation(items, offset)[i] == items[i - (items.len()
            - offset)],
{
}

/// A rotation asks exactly the homes, each as often as it is listed.
pub proof fn rotation_keeps_all<T>(items: Seq<T>, offset: int)
    requires
        0 <= offset <= items.len(),
    ensures
        rotation(items, offset).to_multiset() == items.to_multiset(),
        rotation(items, offset).len() == items.len(),
{
    broadcast use vstd::seq_lib::group_to_multiset_ensures;

    let front = items.take(offset);
    let back = items.skip(offset);
    vstd::seq_lib::lemma_multiset_commutative(front, back);
    vstd::seq_lib::lemma_multiset_commutative(back, front);
    assert(items =~= front + back);
    assert(front.to_multiset().add(back.to_multiset()) =~= back.to_multiset().add(
        front.to_multiset(),
    ));
}

// ---- holders ----

/// The holders with those in memory first, each tier in the directory's order.
pub open spec fn by_tier(holders: Seq<Holder>) -> Seq<Holder> {
    holders.filter(|h: Holder| h.tier is Dram) + holders.filter(|h: Holder| h.tier is Nvme)
}

/// The holders with those in memory first, each tier in the directory's order.
pub fn sorted_by_tier(holders: Vec<Holder>) -> (r: Vec<Holder>)
    ensures
        r@ == by_tier(holders@),
{
    let ghost all = holders@;
    let ghost is_dram = |h: Holder| h.tier is Dram;
    let ghost is_nvme = |h: Holder| h.tier is Nvme;
    let mut dram: Vec<Holder> = Vec::new();
    let mut nvme: Vec<Holder> = Vec::new();
    for h in it: holders
        invariant
            it.seq() == all,
            is_dram == (|h: Holder| h.tier is Dram),
            is_nvme == (|h: Holder| h.tier is Nvme),
            dram@ == all.take(it.index()).filter(is_dram),
            nvme@ == all.take(it.index()).filter(is_nvme),
    {
        proof {
            let k = it.index();
            assert(all.take(k + 1).drop_last() =~= all.take(k));
            assert(all.take(k + 1).last() == h);
            reveal(Seq::filter);
        }
        match h.tier {
            Tier::Dram => dram.push(h),
            Tier::Nvme => nvme.push(h),
        }
    }
    assert(all.take(all.len() as int) =~= all);
    dram.append(&mut nvme);
    dram
}

/// A filter keeps a list whole where it lets each of its elements through.
proof fn lemma_filter_keeps<A>(s: Seq<A>, pred: spec_fn(A) -> bool)
    requires
        forall|i: int| 0 <= i < s.len() ==> pred(#[trigger] s[i]),
    ensures
        s.filter(pred) == s,
    decreases s.len(),
{
    reveal(Seq::filter);
    if s.len() > 0 {
        let less = s.drop_last();
        assert forall|i: int| 0 <= i < less.len() implies pred(#[trigger] less[i]) by {
            assert(less[i] == s[i]);
        }
        lemma_filter_keeps(less, pred);
        assert(pred(s[s.len() - 1]));
        assert(s =~= less.push(s.last()));
    }
}

/// The holders of each tier stand in the directory's order, with none added and none lost, and
/// no holder in memory stands behind one on disk.
pub proof fn memory_comes_first(holders: Seq<Holder>)
    ensures
        by_tier(holders).filter(|h: Holder| h.tier is Dram) == holders.filter(
            |h: Holder| h.tier is Dram,
        ),
        by_tier(holders).filter(|h: Holder| h.tier is Nvme) == holders.filter(
            |h: Holder| h.tier is Nvme,
        ),
        forall|i: int, j: int|
            0 <= i < j < by_tier(holders).len() && (#[trigger] by_tier(holders)[j]).tier is Dram
                ==> (#[trigger] by_tier(holders)[i]).tier is Dram,
{
    let of_dram = |h: Holder| h.tier is Dram;
    let of_nvme = |h: Holder| h.tier is Nvme;
    let a = holders.filter(of_dram);
    let b = holders.filter(of_nvme);
    assert forall|i: int| 0 <= i < a.len() implies of_dram(#[trigger] a[i]) by {
        holders.lemma_filter_pred(of_dram, i);
    }
    assert forall|i: int| 0 <= i < b.len() implies of_nvme(#[trigger] b[i]) by {
        holders.lemma_filter_pred(of_nvme, i);
    }
    lemma_filter_keeps(a, of_dram);
    lemma_filter_keeps(b, of_nvme);
    assert forall|i: int| 0 <= i < a.len() implies !of_nvme(#[trigger] a[i]) by {
        assert(of_dram(a[i]));
    }
    assert forall|i: int| 0 <= i < b.len() implies !of_dram(#[trigger] b[i]) by {
        assert(of_nvme(b[i]));
    }
    a.lemma_all_neg_filter_empty(of_nvme);
    b.lemma_all_neg_filter_empty(of_dram);
    Seq::filter_distributes_over_add(a, b, of_dram);
    Seq::filter_distributes_over_add(a, b, of_nvme);
    assert(a.filter(of_dram) + b.filter(of_dram) =~= a);
    assert(a.filter(of_nvme) + b.filter(of_nvme) =~= b);
    let all = by_tier(holders);
    assert forall|i: int, j: int|
        0 <= i < j < all.len() && (#[trigger] all[j]).tier is Dram implies (
    #[trigger] all[i]).tier is Dram by {
        if j >= a.len() {
            assert(of_nvme(b[j - a.len()]));
        } else {
            assert(of_dram(a[i]));
        }
    }
}

/// `nodes` with the holders' nodes added in order: not the local node, no node twice,
/// and no node that the ring does not know.
pub open spec fn with_holders(
    local: Seq<char>,
    members: Seq<Seq<char>>,
    holders: Seq<Holder>,
    nodes: Seq<Seq<char>>,
) -> Seq<Seq<char>>
    decreases holders.len(),
{
    if holders.len() == 0 {
        nodes
    } else {
        let before = with_holders(local, members, holders.drop_last(), nodes);
        let name = holders.last().node@;
        if name != local && !before.contains(name) && members.contains(name) {
            before.push(name)
        } else {
            before
        }
    }
}

/// Merge the directory's holders into `nodes`, those in memory first. A holder is
/// listed as the ring's member of its name; this node, a node already listed and a
/// node that is no member are passed over.
pub fn append_holders(
    local_node: &str,
    members: &[NodeId],
    holders: Vec<Holder>,
    nodes: &mut Vec<NodeId>,
)
    ensures
        names(final(nodes)@) == with_holders(
            local_node@,
            names(members@),
            by_tier(holders@),
            names(old(nodes)@),
        ),
        final(nodes)@.len() >= old(nodes)@.len(),
        final(nodes)@.take(old(nodes)@.len() as int) == old(nodes)@,
{
    let sorted = sorted_by_tier(holders);
    let ghost start = nodes@;
    let ghost all = sorted@;
    assert(nodes@.take(start.len() as int) =~= start);
    let mut i: usize = 0;
    while i < sorted.len()
        invariant
            i <= sorted@.len(),
            all == sorted@,
            names(nodes@) == with_holders(
                local_node@,
                names(members@),
                all.take(i as int),
                names(start),
            ),
            nodes@.len() >= start.len(),
            nodes@.take(start.len() as int) == start,
        decreases sorted@.len() - i,
    {
        proof {
            assert(all.take(i + 1).drop_last() =~= all.take(i as int));
            assert(all.take(i + 1).last() == all[i as int]);
        }
        let name = sorted[i].node.as_str();
        if !name.eq(local_node) && !lists(nodes.as_slice(), name) {
            match member(members, name) {
                Some(node) => {
                    let ghost before = nodes@;
                    nodes.push(node);
                    assert(names(nodes@) =~= names(before).push(name@));
                    assert(nodes@.take(start.len() as int) =~= start);
                },
                None => {},
            }
        }
        i += 1;
    }
    assert(all.take(i as int) =~= all);
}

/// The ring's member of that name.
pub fn member(members: &[NodeId], name: &str) -> (r: Option<NodeId>)
    ensures
        match r {
            Some(n) => n@ == name@ && names(members@).contains(name@),
            None => !names(members@).contains(name@),
        },
{
    let mut i: usize = 0;
    while i < members.len()
        invariant
            i <= members@.len(),
            forall|j: int| 0 <= j < i ==> names(members@)[j] != name@,
        decreases members@.len() - i,
    {
        if members[i].name().eq(name) {
            assert(names(members@)[i as int] == name@);
            return Some(members[i].clone());
        }
        i += 1;
    }
    None
}

/// Merging holders adds no node twice, adds this node never, and adds only members of
/// the ring.
pub proof fn merging_adds_known_nodes_once(
    local: Seq<char>,
    members: Seq<Seq<char>>,
    holders: Seq<Holder>,
    nodes: Seq<Seq<char>>,
)
    ensures
        nodes.no_duplicates() ==> with_holders(local, members, holders, nodes).no_duplicates(),
        with_holders(local, members, holders, nodes).len() >= nodes.len(),
        with_holders(local, members, holders, nodes).take(nodes.len() as int) == nodes,
        forall|i: int|
            nodes.len() <= i < with_holders(local, members, holders, nodes).len() ==> {
                let n = #[trigger] with_holders(local, members, holders, nodes)[i];
                n != local && members.contains(n)
            },
    decreases holders.len(),
{
    if holders.len() > 0 {
        merging_adds_known_nodes_once(local, members, holders.drop_last(), nodes);
        let before = with_holders(local, members, holders.drop_last(), nodes);
        let after = with_holders(local, members, holders, nodes);
        assert(after.take(nodes.len() as int) =~= nodes);
        assert forall|i: int| nodes.len() <= i < after.len() implies {
            let n = #[trigger] after[i];
            n != local && members.contains(n)
        } by {
            if i < before.len() {
                assert(after[i] == before[i]);
            }
        }
    } else {
        assert(nodes.take(nodes.len() as int) =~= nodes);
    }
}

/// Holders are merged one after the other, the first named first: merging more of them goes on
/// from where the first of them led, and keeps what was listed where it was.
pub proof fn merging_goes_on(
    local: Seq<char>,
    members: Seq<Seq<char>>,
    front: Seq<Holder>,
    back: Seq<Holder>,
    nodes: Seq<Seq<char>>,
)
    ensures
        with_holders(local, members, front + back, nodes) == with_holders(
            local,
            members,
            back,
            with_holders(local, members, front, nodes),
        ),
        with_holders(local, members, front, nodes).is_prefix_of(
            with_holders(local, members, front + back, nodes),
        ),
    decreases back.len(),
{
    if back.len() == 0 {
        assert(front + back =~= front);
    } else {
        merging_goes_on(local, members, front, back.drop_last(), nodes);
        assert((front + back).drop_last() =~= front + back.drop_last());
        assert((front + back).last() == back.last());
    }
}

/// One holder alone is added behind the nodes exactly where it is a member of the ring, is not
/// this node and is not listed yet.
pub proof fn one_holder_is_merged_where_it_is_new(
    local: Seq<char>,
    members: Seq<Seq<char>>,
    holder: Holder,
    nodes: Seq<Seq<char>>,
)
    ensures
        ({
            let after = with_holders(local, members, seq![holder], nodes);
            let name = holder.node@;
            &&& members.contains(name) && name != local && !nodes.contains(name) ==> after
                == nodes.push(name)
            &&& !members.contains(name) || name == local || nodes.contains(name) ==> after == nodes
        }),
{
    assert(seq![holder].drop_last() =~= Seq::<Holder>::empty());
    reveal_with_fuel(with_holders, 2);
}

/// Every holder that the ring knows is reached: after the merge it is listed, unless it
/// is this node.
pub proof fn merging_reaches_every_member(
    local: Seq<char>,
    members: Seq<Seq<char>>,
    holders: Seq<Holder>,
    nodes: Seq<Seq<char>>,
    i: int,
)
    requires
        0 <= i < holders.len(),
        members.contains(holders[i].node@),
        holders[i].node@ != local,
    ensures
        with_holders(local, members, holders, nodes).contains(holders[i].node@),
    decreases holders.len(),
{
    let name = holders[i].node@;
    let before = with_holders(local, members, holders.drop_last(), nodes);
    let after = with_holders(local, members, holders, nodes);
    if i < holders.len() - 1 {
        merging_reaches_every_member(local, members, holders.drop_last(), nodes, i);
        let k = choose|k: int| 0 <= k < before.len() && before[k] == name;
        assert(after[k] == name);
    } else if before.contains(name) {
        let k = choose|k: int| 0 <= k < before.len() && before[k] == name;
        assert(after[k] == name);
    } else {
        assert(after[after.len() - 1] == name);
    }
}

} // verus!
