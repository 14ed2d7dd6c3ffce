//! A small table from texts to values, searched from the front.

use vstd::prelude::*;

verus! {

/// Values by text. No key is held twice.
#[derive(Debug)]
pub struct Table<T> {
    entries: Vec<(String, T)>,
}

/// The entries as a map, later ones over earlier ones.
spec fn entry_map<T>(entries: Seq<(String, T)>) -> Map<Seq<char>, T>
    decreases entries.len(),
{
    if entries.len() == 0 {
        Map::empty()
    } else {
        entry_map(entries.drop_last()).insert(entries.last().0@, entries.last().1)
    }
}

/// No key is listed twice.
spec fn keys_distinct<T>(entries: Seq<(String, T)>) -> bool {
    forall|i: int, j: int|
        0 <= i < j < entries.len() ==> (#[trigger] entries[i]).0@ != (#[trigger] entries[j]).0@
}

/// What the map of distinct entries holds.
proof fn lemma_entry_map<T>(entries: Seq<(String, T)>)
    requires
        keys_distinct(entries),
    ensures
        forall|i: int|
            0 <= i < entries.len() ==> {
                &&& entry_map(entries).contains_key((#[trigger] entries[i]).0@)
                &&& entry_map(entries)[entries[i].0@] == entries[i].1
            },
        forall|k: Seq<char>| #[trigger]
            entry_map(entries).contains_key(k) ==> exists|i: int|
                0 <= i < entries.len() && (#[trigger] entries[i]).0@ == k,
        entry_map(entries).dom().finite(),
        entry_map(entries).dom().len() == entries.len(),
    decreases entries.len(),
{
    if entries.len() > 0 {
        let front = entries.drop_last();
        let last = entries.last();
        assert forall|i: int, j: int| 0 <= i < j < front.len() implies (#[trigger] front[i]).0@ != (
        #[trigger] front[j]).0@ by {
            assert(front[i] == entries[i] && front[j] == entries[j]);
        }
        lemma_entry_map(front);
        assert forall|i: int| 0 <= i < entries.len() implies {
            &&& entry_map(entries).contains_key((#[trigger] entries[i]).0@)
            &&& entry_map(entries)[entries[i].0@] == entries[i].1
        } by {
            if i < front.len() {
                assert(front[i] == entries[i]);
                assert(entries[i].0@ != entries[entries.len() - 1].0@);
            }
        }
        assert(!entry_map(front).contains_key(last.0@)) by {
            if entry_map(front).contains_key(last.0@) {
                let i = choose|i: int|
                    0 <= i < front.len() && (#[trigger] front[i]).0@ == last.0@;
                assert(front[i] == entries[i]);
                assert(entries[i].0@ != entries[entries.len() - 1].0@);
            }
        }
        assert forall|k: Seq<char>| #[trigger] entry_map(entries).contains_key(k) implies exists|
            i: int,
        |
            0 <= i < entries.len() && (#[trigger] entries[i]).0@ == k by {
            if k == last.0@ {
                assert(entries[entries.len() - 1].0@ == k);
            } else {
                assert(entry_map(front).contains_key(k));
                let i = choose|i: int| 0 <= i < front.len() && (#[trigger] front[i]).0@ == k;
                assert(front[i] == entries[i]);
            }
        }
        assert(entry_map(entries).dom() =~= entry_map(front).dom().insert(last.0@));
    } else {
        assert(entry_map(entries).dom() =~= Set::empty());
    }
}

/// Taking one entry out removes just its key from the map.
proof fn lemma_entry_map_remove<T>(entries: Seq<(String, T)>, k: int)
    requires
        keys_distinct(entries),
        0 <= k < entries.len(),
    ensures
        keys_distinct(entries.remove(k)),
        entry_map(entries.remove(k)) == entry_map(entries).remove(entries[k].0@),
{
    let rest = entries.remove(k);
    let gone = entries[k].0@;
    assert forall|i: int, j: int| 0 <= i < j < rest.len() implies (#[trigger] rest[i]).0@ != (
    #[trigger] rest[j]).0@ by {
        let a = if i < k { i } else { i + 1 };
        let b = if j < k { j } else { j + 1 };
        assert(rest[i] == entries[a] && rest[j] == entries[b]);
    }
    lemma_entry_map(entries);
    lemma_entry_map(rest);
    let want = entry_map(entries).remove(gone);
    assert forall|o: Seq<char>| entry_map(rest).contains_key(o) <==> want.contains_key(o) by {
        if entry_map(rest).contains_key(o) {
            let i = choose|i: int| 0 <= i < rest.len() && (#[trigger] rest[i]).0@ == o;
            let a = if i < k { i } else { i + 1 };
            assert(rest[i] == entries[a]);
            assert(entries[a].0@ == o);
            assert(entries[k].0@ != o);
        }
        if want.contains_key(o) {
            let a = choose|a: int| 0 <= a < entries.len() && (#[trigger] entries[a]).0@ == o;
            let i = if a < k { a } else { a - 1 };
            assert(a != k);
            assert(rest[i] == entries[a]);
        }
    }
    assert forall|o: Seq<char>| entry_map(rest).contains_key(o) implies entry_map(rest)[o]
        == want[o] by {
        let i = choose|i: int| 0 <= i < rest.len() && (#[trigger] rest[i]).0@ == o;
        let a = if i < k { i } else { i + 1 };
        assert(rest[i] == entries[a]);
        assert(entries[a].0@ == o);
    }
    assert(entry_map(rest) =~= want);
}

impl<T> View for Table<T> {
    type V = Map<Seq<char>, T>;

    closed spec fn view(&self) -> Map<Seq<char>, T> {
        entry_map(self.entries@)
    }
}

impl<T> Table<T> {
    /// Each key is held once.
    pub closed spec fn wf(&self) -> bool {
        keys_distinct(self.entries@)
    }

    /// A table that holds nothing.
    pub fn new() -> (t: Self)
        ensures
            t.wf(),
            t@ == Map::<Seq<char>, T>::empty(),
    {
        Table { entries: Vec::new() }
    }

    /// How many keys are held.
    pub fn len(&self) -> (n: usize)
        requires
            self.wf(),
        ensures
            self@.dom().finite(),
            n == self@.dom().len(),
    {
        proof {
            lemma_entry_map(self.entries@);
        }
        self.entries.len()
    }

    /// Where the entry of a key stands.
    fn position(&self, key: &str) -> (r: Option<usize>)
        requires
            self.wf(),
        ensures
            match r {
                Some(k) => k < self.entries@.len() && self.entries@[k as int].0@ == key@
                    && self@.contains_key(key@) && self@[key@] == self.entries@[k as int].1,
                None => !self@.contains_key(key@),
            },
    {
        proof {
            lemma_entry_map(self.entries@);
        }
        let mut k: usize = 0;
        while k < self.entries.len()
            invariant
                self.wf(),
                k <= self.entries@.len(),
                forall|j: int| 0 <= j < k ==> (#[trigger] self.entries@[j]).0@ != key@,
            decreases self.entries@.len() - k,
        {
            if self.entries[k].0.as_str().eq(key) {
                proof {
                    lemma_entry_map(self.entries@);
                }
                return Some(k);
            }
            k += 1;
        }
        None
    }

    /// Whether a key is held.
    pub fn contains(&self, key: &str) -> (r: bool)
        requires
            self.wf(),
        ensures
            r == self@.contains_key(key@),
    {
        self.position(key).is_some()
    }

    /// The value under a key.
    pub fn get(&self, key: &str) -> (r: Option<&T>)
        requires
            self.wf(),
        ensures
            match r {
                Some(v) => self@.contains_key(key@) && *v == self@[key@],
                None => !self@.contains_key(key@),
            },
    {
        match self.position(key) {
            Some(k) => Some(&self.entries[k].1),
            None => None,
        }
    }

    /// Take a key and its value out.
    pub fn remove(&mut self, key: &str) -> (r: Option<T>)
        requires
            old(self).wf(),
        ensures
            final(self).wf(),
            final(self)@ == old(self)@.remove(key@),
            match r {
                Some(v) => old(self)@.contains_key(key@) && v == old(self)@[key@],
                None => !old(self)@.contains_key(key@),
            },
    {
        match self.position(key) {
            Some(k) => {
                proof {
                    lemma_entry_map_remove(self.entries@, k as int);
                }
                let (_, value) = self.entries.remove(k);
                Some(value)
            },
            None => {
                assert(self@.remove(key@) =~= self@);
                None
            },
        }
    }

    /// Put a value under a key, in place of one that it had.
    pub fn insert(&mut self, key: &str, value: T)
        requires
            old(self).wf(),
        ensures
            final(self).wf(),
            final(self)@ == old(self)@.insert(key@, value),
    {
        let ghost start = self@;
        let _ = self.remove(key);
        let ghost mid = self.entries@;
        proof {
            lemma_entry_map(mid);
        }
        self.entries.push((key.to_owned(), value));
        proof {
            assert(self.entries@.drop_last() =~= mid);
            assert forall|i: int, j: int| 0 <= i < j < self.entries@.len() implies (
            #[trigger] self.entries@[i]).0@ != (#[trigger] self.entries@[j]).0@ by {
                assert(self.entries@[i] == mid[i]);
                if j < mid.len() {
                    assert(self.entries@[j] == mid[j]);
                } else {
                    assert(entry_map(mid).contains_key(mid[i].0@));
                }
            }
            assert(self@ =~= start.insert(key@, value));
        }
    }
}

} // verus!
