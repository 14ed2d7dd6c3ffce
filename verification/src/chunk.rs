//! The chunk grid: objects are cached in chunks of one fixed size, each under a key
//! of its own.

use std::ops::Range;

use vstd::arithmetic::div_mod::{lemma_fundamental_div_mod, lemma_mod_bound};
use vstd::prelude::*;

use crate::text::{
    chars_of, decimal, decimal_holds_no, decimal_reads_back, lemma_first_index,
    lemma_first_index_ensures, lemma_last_index, lemma_last_index_ensures, number,
    number_of_decimal, parse_number, push_decimal, push_text, rsplit_once, rsplit_once_at,
    split_once, split_once_at, string_of,
};

verus! {

/// How many chunks of `size` bytes cover `len` bytes.
pub open spec fn chunks_in(size: nat, len: nat) -> nat {
    if len % size == 0 {
        len / size
    } else {
        len / size + 1
    }
}

/// The bytes of an object of `len` bytes that its chunk `index` holds: all chunks are
/// full but the last, and none lies past the end.
pub open spec fn chunk_span(size: nat, index: nat, len: nat) -> Option<(nat, nat)> {
    if index * size < len {
        Some(
            (
                index * size,
                if (index + 1) * size <= len {
                    (index + 1) * size
                } else {
                    len
                },
            ),
        )
    } else {
        None
    }
}

/// The key of chunk `index` of an object, on a grid of `size` bytes.
pub open spec fn key_of_chunk(object_key: Seq<char>, size: nat, index: nat) -> Seq<char> {
    object_key + seq!['#'] + decimal(size) + seq![':'] + decimal(index)
}

/// A chunk lies inside an object exactly when its index is below the chunk count.
pub proof fn index_below_count(size: nat, index: nat, len: nat)
    requires
        size > 0,
    ensures
        index < chunks_in(size, len) <==> index * size < len,
        index <= chunks_in(size, len) ==> index * size < len + size,
{
    lemma_fundamental_div_mod(len as int, size as int);
    lemma_mod_bound(len as int, size as int);
    let q = (len / size) as int;
    let r = (len % size) as int;
    let i = index as int;
    let s = size as int;
    if i < q {
        assert(i * s <= (q - 1) * s) by (nonlinear_arith)
            requires
                i <= q - 1,
                s > 0,
        ;
        assert((q - 1) * s == s * q - s) by (nonlinear_arith);
    } else {
        assert(i * s >= q * s) by (nonlinear_arith)
            requires
                i >= q,
                s > 0,
        ;
        assert(q * s == s * q) by (nonlinear_arith);
        if i > q {
            assert(i * s >= (q + 1) * s) by (nonlinear_arith)
                requires
                    i >= q + 1,
                    s > 0,
            ;
            assert((q + 1) * s == s * q + s) by (nonlinear_arith);
            if i == q + 1 {
                assert(i * s == s * q + s);
            }
        }
    }
}

/// The chunk grid of a node: one positive chunk size.
#[derive(Clone, Copy, Debug, PartialEq, Eq)]
pub struct ChunkConfig {
    chunk_size: u64,
}

impl ChunkConfig {
    /// The chunk size, in bytes.
    pub closed spec fn size(&self) -> nat {
        self.chunk_size as nat
    }

    #[verifier::type_invariant]
    spec fn positive(self) -> bool {
        self.chunk_size > 0
    }

    /// A grid of `chunk_size` bytes, which must not be zero.
    pub fn new(chunk_size: u64) -> (c: Self)
        requires
            chunk_size > 0,
        ensures
            c.size() == chunk_size,
    {
        ChunkConfig { chunk_size }
    }

    /// The chunk size, in bytes.
    pub fn chunk_size(&self) -> (n: u64)
        ensures
            n == self.size(),
            n > 0,
    {
        proof {
            use_type_invariant(self);
        }
        self.chunk_size
    }

    /// How many chunks cover an object of `object_len` bytes.
    pub fn chunk_count(&self, object_len: u64) -> (n: u64)
        ensures
            n == chunks_in(self.size(), object_len as nat),
    {
        let size: u64 = self.chunk_size();
        if object_len % size == 0 {
            object_len / size
        } else {
            proof {
                assert(object_len / size < u64::MAX) by (nonlinear_arith)
                    requires
                        size > 0,
                        object_len % size != 0,
                        object_len <= u64::MAX,
                {
                    if size == 1 {
                        assert(object_len % 1 == 0);
                    } else {
                        assert(object_len / size <= object_len / 2);
                    }
                }
            }
            object_len / size + 1
        }
    }

    /// The bytes of the object that chunk `index` holds, or `None` past its end.
    pub fn chunk_bounds(&self, index: u64, object_len: u64) -> (r: Option<Range<u64>>)
        ensures
            match chunk_span(self.size(), index as nat, object_len as nat) {
                Some((a, b)) => r == Some(Range { start: a as u64, end: b as u64 }) && a < b
                    <= object_len,
                None => r is None,
            },
    {
        let size: u64 = self.chunk_size();
        proof {
            index_below_count(self.size(), index as nat, object_len as nat);
        }
        if index >= self.chunk_count(object_len) {
            return None;
        }
        let start: u64 = index * size;
        assert((index + 1) * size == index * size + size) by (nonlinear_arith);
        let end: u64 = if object_len - start >= size {
            start + size
        } else {
            object_len
        };
        Some(Range { start, end })
    }

    /// The key of the object's chunk `index`.
    pub fn chunk_key(&self, object_key: &str, index: u64) -> (r: String)
        ensures
            r@ == key_of_chunk(object_key@, self.size(), index as nat),
    {
        let mut out = String::new();
        push_text(&mut out, object_key);
        out.push('#');
        push_decimal(&mut out, self.chunk_size());
        out.push(':');
        push_decimal(&mut out, index);
        assert(out@ =~= key_of_chunk(object_key@, self.size(), index as nat));
        out
    }

    /// The chunks that hold bytes of the range from `start` up to `end`.
    pub fn covering(&self, start: u64, end: u64) -> (r: Range<u64>)
        ensures
            r.start == start as nat / self.size(),
            start < end ==> r.end == chunks_in(self.size(), end as nat),
            start >= end ==> r.end == r.start,
    {
        let size: u64 = self.chunk_size();
        let first: u64 = start / size;
        if start < end {
            Range { start: first, end: self.chunk_count(end) }
        } else {
            Range { start: first, end: first }
        }
    }
}

/// The cache key of an object: its bucket and its key within it.
pub open spec fn object_key_of(bucket: Seq<char>, key: Seq<char>) -> Seq<char> {
    bucket + seq!['/'] + key
}

/// The cache key of an object.
pub fn object_key(bucket: &str, key: &str) -> (r: String)
    ensures
        r@ == object_key_of(bucket@, key@),
{
    let mut out = String::new();
    push_text(&mut out, bucket);
    out.push('/');
    push_text(&mut out, key);
    assert(out@ =~= object_key_of(bucket@, key@));
    out
}

/// The bucket and the key that a cache key was made of.
pub fn object_key_parts(object_key: &str) -> (r: Option<(String, String)>)
    ensures
        match r {
            Some(p) => split_once(object_key@, '/') == Some((p.0@, p.1@)),
            None => split_once(object_key@, '/') is None,
        },
{
    let chars = chars_of(object_key);
    match split_once_at(chars.as_slice(), '/') {
        Some((bucket, key)) => Some((string_of(bucket), string_of(key))),
        None => None,
    }
}

/// An object's bucket and key come back from its cache key, as no bucket name holds a
/// slash.
pub proof fn object_key_parts_come_back(bucket: Seq<char>, key: Seq<char>)
    requires
        forall|i: int| 0 <= i < bucket.len() ==> bucket[i] != '/',
    ensures
        split_once(object_key_of(bucket, key), '/') == Some((bucket, key)),
{
    let s = object_key_of(bucket, key);
    let at = bucket.len() as int;
    assert forall|j: int| 0 <= j < at implies s[j] != '/' by {
        assert(s[j] == bucket[j]);
    }
    lemma_first_index(s, '/', at);
    assert(s.take(at) =~= bucket);
    assert(s.skip(at + 1) =~= key);
}

// ---- reading a chunk key ----

/// What a chunk key names: the object's key and the chunk's index. The size stands
/// between the last `#` and the first `:` after it.
pub open spec fn chunk_key_parts(cache_key: Seq<char>) -> Option<(Seq<char>, u64)> {
    match rsplit_once(cache_key, '#') {
        Some((object_key, suffix)) => match split_once(suffix, ':') {
            Some((_, index)) => match number(index) {
                Some(n) => Some((object_key, n)),
                None => None,
            },
            None => None,
        },
        None => None,
    }
}

/// The object's key and the chunk's index that a chunk key names.
pub fn parse_chunk_key(cache_key: &str) -> (r: Option<(String, u64)>)
    ensures
        match r {
            Some(p) => chunk_key_parts(cache_key@) == Some((p.0@, p.1)),
            None => chunk_key_parts(cache_key@) is None,
        },
{
    let chars = chars_of(cache_key);
    match rsplit_once_at(chars.as_slice(), '#') {
        Some((object_key, suffix)) => match split_once_at(suffix, ':') {
            Some((_, index)) => match parse_number(index) {
                Some(n) => Some((string_of(object_key), n)),
                None => None,
            },
            None => None,
        },
        None => None,
    }
}

/// Every chunk key reads back as the object and the index that it was made of, whatever
/// the object's key holds.
pub proof fn a_chunk_key_reads_back(object_key: Seq<char>, size: nat, index: u64)
    ensures
        chunk_key_parts(key_of_chunk(object_key, size, index as nat)) == Some((object_key, index)),
{
    let s = key_of_chunk(object_key, size, index as nat);
    let at = object_key.len() as int;
    let ds = decimal(size);
    let di = decimal(index as nat);
    let suffix = ds + seq![':'] + di;
    decimal_holds_no(size, '#');
    decimal_holds_no(size, ':');
    decimal_holds_no(index as nat, '#');
    assert(s =~= object_key + seq!['#'] + suffix);
    assert forall|j: int| at < j < s.len() implies s[j] != '#' by {
        let k = j - at - 1;
        assert(s[j] == suffix[k]);
        if k < ds.len() {
            assert(suffix[k] == ds[k]);
        } else if k > ds.len() {
            assert(suffix[k] == di[k - ds.len() - 1]);
        }
    }
    lemma_last_index(s, '#', at);
    assert(s.take(at) =~= object_key);
    assert(s.skip(at + 1) =~= suffix);
    assert forall|j: int| 0 <= j < ds.len() implies suffix[j] != ':' by {
        assert(suffix[j] == ds[j]);
    }
    lemma_first_index(suffix, ':', ds.len() as int);
    assert(suffix.skip(ds.len() as int + 1) =~= di);
    number_of_decimal(index);
}

/// No two chunks share a key: chunks of other objects, of other indices and of grids of other
/// sizes all have other keys.
pub proof fn chunk_keys_tell_chunks_apart(
    object: Seq<char>,
    size: nat,
    index: u64,
    other_object: Seq<char>,
    other_size: nat,
    other_index: u64,
)
    requires
        key_of_chunk(object, size, index as nat) == key_of_chunk(
            other_object,
            other_size,
            other_index as nat,
        ),
    ensures
        object == other_object,
        size == other_size,
        index == other_index,
{
    a_chunk_key_reads_back(object, size, index);
    a_chunk_key_reads_back(other_object, other_size, other_index);
    let a = key_of_chunk(object, size, index as nat);
    let b = key_of_chunk(object, other_size, index as nat);
    let n = object.len() as int;
    let x = decimal(size);
    let y = decimal(other_size);
    let tail = decimal(index as nat).len();
    assert(a.len() == n + 1 + x.len() + 1 + tail);
    assert(b.len() == n + 1 + y.len() + 1 + tail);
    assert(x =~= a.subrange(n + 1, n + 1 + x.len()));
    assert(y =~= b.subrange(n + 1, n + 1 + y.len()));
    decimal_reads_back(size);
    decimal_reads_back(other_size);
}

/// A text is read as a chunk key only where it is one: an object's key, a hash sign, a run, a
/// colon and a number, the hash sign being its last and the colon the first behind that.
pub proof fn a_chunk_key_is_made_of_its_parts(cache_key: Seq<char>)
    ensures
        chunk_key_parts(cache_key) matches Some((object_key, index)) ==> exists|
            size: Seq<char>,
            digits: Seq<char>,
        |
            #![trigger size + seq![':'] + digits]
            cache_key == object_key + seq!['#'] + (size + seq![':'] + digits) && number(digits)
                == Some(index) && !size.contains('#') && !digits.contains('#') && !size.contains(
                ':',
            ),
{
    if let Some((object_key, suffix)) = rsplit_once(cache_key, '#') {
        lemma_last_index_ensures(cache_key, '#');
        let at = object_key.len() as int;
        assert(cache_key =~= object_key + seq!['#'] + suffix);
        if let Some((size, digits)) = split_once(suffix, ':') {
            lemma_first_index_ensures(suffix, ':');
            assert(suffix =~= size + seq![':'] + digits);
            assert forall|c: char| size.contains(c) || digits.contains(c) implies suffix.contains(
                c,
            ) by {
                if size.contains(c) {
                    let i = choose|i: int| 0 <= i < size.len() && size[i] == c;
                    assert(suffix[i] == c);
                } else {
                    let i = choose|i: int| 0 <= i < digits.len() && digits[i] == c;
                    assert(suffix[size.len() + 1 + i] == c);
                }
            }
            assert(!suffix.contains('#')) by {
                if suffix.contains('#') {
                    let i = choose|i: int| 0 <= i < suffix.len() && suffix[i] == '#';
                    assert(cache_key[at + 1 + i] == '#');
                }
            }
            assert(!size.contains(':')) by {
                if size.contains(':') {
                    let i = choose|i: int| 0 <= i < size.len() && size[i] == ':';
                    assert(suffix[i] == ':');
                }
            }
        }
    }
}

/// A chunk holds the bytes from its index times the size on: a full size of them, or those up to
/// the object's end. Past the end there is none.
pub proof fn a_chunk_lies_on_the_grid(size: nat, index: nat, len: nat)
    requires
        size > 0,
    ensures
        chunk_span(size, index, len) is None <==> index * size >= len,
        chunk_span(size, index, len) matches Some((a, b)) ==> {
            &&& a == index * size
            &&& a < b <= len
            &&& b - a == size || b == len && b - a < size
        },
{
    assert((index + 1) * size == index * size + size) by (nonlinear_arith);
}

/// The chunks that cover a range are those that hold any byte of it, and no other.
pub proof fn covering_chunks_hold_the_range(size: nat, start: nat, end: nat, index: nat)
    requires
        size > 0,
        start < end,
    ensures
        start / size <= index < chunks_in(size, end) <==> index * size < end && start < (index + 1)
            * size,
{
    index_below_count(size, index, end);
    lemma_fundamental_div_mod(start as int, size as int);
    lemma_mod_bound(start as int, size as int);
    let q = (start / size) as int;
    let i = index as int;
    let n = size as int;
    assert(start == n * q + (start % size) as int);
    assert((index + 1) * size == index * size + size) by (nonlinear_arith);
    if i >= q {
        assert(i * n >= n * q) by (nonlinear_arith)
            requires
                i >= q,
                n > 0,
        ;
    } else {
        assert(i * n + n <= n * q) by (nonlinear_arith)
            requires
                i + 1 <= q,
                n > 0,
        ;
    }
}

/// The object's length that a content range tells: the number behind its last slash.
pub open spec fn range_total(content_range: Option<Seq<char>>) -> Option<u64> {
    match content_range {
        Some(text) => match rsplit_once(text, '/') {
            Some((_, total)) => number(total),
            None => None,
        },
        None => None,
    }
}

/// The object's length that a content range tells.
pub fn content_range_total(content_range: Option<&str>) -> (r: Option<u64>)
    ensures
        r == range_total(
            match content_range {
                Some(t) => Some(t@),
                None => None,
            },
        ),
{
    match content_range {
        Some(text) => {
            let chars = chars_of(text);
            match rsplit_once_at(chars.as_slice(), '/') {
                Some((_, total)) => parse_number(total),
                None => None,
            }
        },
        None => None,
    }
}

/// A content range tells the length behind its last slash, where that is a number; without a slash
/// it tells none.
pub proof fn a_range_tells_the_length_behind_its_slash(front: Seq<char>, total: Seq<char>)
    requires
        !total.contains('/'),
    ensures
        range_total(Some(front + seq!['/'] + total)) == number(total),
        range_total(Some(total)) is None,
        range_total(None) is None,
{
    crate::text::a_division_leaves_one_character_out(front, '/', total);
    crate::text::a_division_leaves_one_character_out(total, '/', total);
}

} // verus!
