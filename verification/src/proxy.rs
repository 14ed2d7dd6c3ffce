//! The settings of the front door: which objects are cached, what a client's bucket name
//! stands for, and which writes are scattered.

use vstd::prelude::*;

use crate::chunk::ChunkConfig;
use crate::scatter::DEFAULT_MIN_SCATTER_BYTES;
use crate::table::Table;
use crate::write::BackendType;

verus! {

/// The settings of the front door.
#[derive(Debug)]
pub struct PacerProxy {
    /// Objects of that size or less are not cached.
    pub min_object_size: u64,
    /// Objects above that size are not cached.
    pub max_object_size: Option<u64>,
    /// The chunk grid.
    pub chunk: ChunkConfig,
    /// How many chunks of one read are fetched ahead.
    pub fill_parallelism: usize,
    /// The backend.
    pub backend_type: BackendType,
    /// Whether large writes are scattered.
    pub scatter: bool,
    /// The smallest write that is scattered.
    pub scatter_min_object_bytes: u64,
    /// Whether a read with a condition may be served from the cache.
    pub conditional_get_from_cache: bool,
    /// By the name that clients use, the bucket that it stands for.
    pub bucket_map: BucketMap,
}

/// Bucket names that stand for others.
#[derive(Debug)]
pub struct BucketMap {
    aliases: Table<String>,
}

impl View for BucketMap {
    type V = Map<Seq<char>, Seq<char>>;

    closed spec fn view(&self) -> Map<Seq<char>, Seq<char>> {
        self.aliases@.map_values(|s: String| s@)
    }
}

/// What a list of pairs maps: a later pair takes the place of an earlier one.
pub open spec fn pair_map(pairs: Seq<(String, String)>) -> Map<Seq<char>, Seq<char>>
    decreases pairs.len(),
{
    if pairs.len() == 0 {
        Map::empty()
    } else {
        pair_map(pairs.drop_last()).insert(pairs.last().0@, pairs.last().1@)
    }
}

/// The bucket that a name stands for: its own, where it is no alias.
pub open spec fn real_bucket(aliases: Map<Seq<char>, Seq<char>>, bucket: Seq<char>) -> Seq<char> {
    if aliases.contains_key(bucket) {
        aliases[bucket]
    } else {
        bucket
    }
}

/// A name stands for the bucket of the last pair that gives it one, and for itself where no pair
/// does.
pub proof fn the_last_pair_counts(pairs: Seq<(String, String)>, bucket: Seq<char>, i: int)
    ensures
        0 <= i < pairs.len() && pairs[i].0@ == bucket && (forall|j: int|
            i < j < pairs.len() ==> (#[trigger] pairs[j]).0@ != bucket) ==> real_bucket(
            pair_map(pairs),
            bucket,
        ) == pairs[i].1@,
        (forall|j: int| 0 <= j < pairs.len() ==> (#[trigger] pairs[j]).0@ != bucket) ==> real_bucket(
            pair_map(pairs),
            bucket,
        ) == bucket,
    decreases pairs.len(),
{
    if pairs.len() > 0 && pairs.last().0@ != bucket {
        let less = pairs.drop_last();
        the_last_pair_counts(less, bucket, i);
        assert forall|j: int| 0 <= j < less.len() implies less[j] == pairs[j] by {}
    }
    if pairs.len() > 0 {
        assert(pairs[pairs.len() - 1] == pairs.last());
    }
}

impl BucketMap {
    #[verifier::type_invariant]
    spec fn each_once(self) -> bool {
        self.aliases.wf()
    }

    /// No alias at all.
    pub fn new() -> (m: Self)
        ensures
            m@ == Map::<Seq<char>, Seq<char>>::empty(),
    {
        let m = BucketMap { aliases: Table::new() };
        assert(m@ =~= Map::<Seq<char>, Seq<char>>::empty());
        m
    }

    /// The aliases of a list of pairs.
    pub fn of_pairs(pairs: Vec<(String, String)>) -> (m: Self)
        ensures
            m@ == pair_map(pairs@),
    {
        let ghost all = pairs@;
        let mut aliases: Table<String> = Table::new();
        assert(all.take(0) =~= Seq::empty());
        assert(aliases@.map_values(|s: String| s@) =~= pair_map(all.take(0)));
        for p in it: pairs
            invariant
                it.seq() == all,
                0 <= it.index() <= all.len(),
                aliases.wf(),
                aliases@.map_values(|s: String| s@) == pair_map(all.take(it.index() as int)),
        {
            let ghost i = it.index() as int;
            let ghost before = aliases@;
            let (alias, name) = p;
            proof {
                assert(all.take(i + 1).drop_last() =~= all.take(i));
                assert(all.take(i + 1).last() == p);
            }
            let ghost read = name@;
            aliases.insert(alias.as_str(), name);
            assert(aliases@.map_values(|s: String| s@) =~= before.map_values(
                |s: String| s@,
            ).insert(alias@, read));
        }
        assert(all.take(all.len() as int) =~= all);
        BucketMap { aliases }
    }

    /// Put the bucket that a name stands for in its place.
    pub fn resolve(&self, bucket: &mut String)
        ensures
            final(bucket)@ == real_bucket(self@, old(bucket)@),
    {
        proof {
            use_type_invariant(self);
        }
        match self.aliases.get(bucket.as_str()) {
            Some(name) => {
                *bucket = name.clone();
            },
            None => {},
        }
    }
}

impl PacerProxy {
    /// The settings of a node that caches objects between the two sizes on that grid. It
    /// scatters nothing, knows no alias, takes its backend for an Express bucket, and
    /// serves reads with a condition from the cache.
    pub fn new(
        min_object_size: u64,
        max_object_size: Option<u64>,
        chunk: ChunkConfig,
        fill_parallelism: usize,
    ) -> (p: Self)
        ensures
            p.min_object_size == min_object_size,
            p.max_object_size == max_object_size,
            p.chunk == chunk,
            p.fill_parallelism == fill_parallelism,
            p.backend_type is Express,
            !p.scatter,
            p.scatter_min_object_bytes == DEFAULT_MIN_SCATTER_BYTES,
            p.conditional_get_from_cache,
            p.bucket_map@ == Map::<Seq<char>, Seq<char>>::empty(),
    {
        PacerProxy {
            min_object_size,
            max_object_size,
            chunk,
            fill_parallelism,
            backend_type: BackendType::Express,
            scatter: false,
            scatter_min_object_bytes: DEFAULT_MIN_SCATTER_BYTES,
            conditional_get_from_cache: true,
            bucket_map: BucketMap::new(),
        }
    }

    /// Set whether a read with a condition may be served from the cache.
    pub fn with_conditional_get_from_cache(self, allow: bool) -> (p: Self)
        ensures
            p == (PacerProxy { conditional_get_from_cache: allow, ..self }),
    {
        PacerProxy { conditional_get_from_cache: allow, ..self }
    }

    /// Set the aliases of buckets.
    pub fn with_bucket_map(self, bucket_map: BucketMap) -> (p: Self)
        ensures
            p == (PacerProxy { bucket_map, ..self }),
    {
        PacerProxy { bucket_map, ..self }
    }

    /// Scatter writes of that many bytes or more.
    pub fn with_scatter(self, min_object_bytes: u64) -> (p: Self)
        ensures
            p == (PacerProxy {
                scatter: true,
                scatter_min_object_bytes: min_object_bytes,
                ..self
            }),
    {
        PacerProxy { scatter: true, scatter_min_object_bytes: min_object_bytes, ..self }
    }

    /// Set the type of the backend.
    pub fn with_backend_type(self, backend_type: BackendType) -> (p: Self)
        ensures
            p == (PacerProxy { backend_type, ..self }),
    {
        PacerProxy { backend_type, ..self }
    }

    /// Put the bucket that a client's name stands for in its place.
    pub fn map_bucket(&self, bucket: &mut String)
        ensures
            final(bucket)@ == real_bucket(self.bucket_map@, old(bucket)@),
    {
        self.bucket_map.resolve(bucket);
    }
}

} // verus!
