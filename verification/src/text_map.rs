//! Maps and sets with text keys.

use crate::text::same_text;
use vstd::prelude::*;

verus! {

/// A map from text to values.
#[derive(Debug)]
pub struct TextMap<V> {
    entries: Vec<(String, V)>,
}

/// The map that a list of entries stands for; a later entry goes before an earlier
/// one with the same key.
pub open spec fn map_of<V>(entries: Seq<(String, V)>) -> Map<Seq<char>, V>
    decreases entries.len(),
{
    if entries.len() == 0 {
        Map::empty()
    } else {
        map_of(entries.drop_last()).insert(entries.last().0@, entries.last().1)
    }
}

impl<V> View for TextMap<V> {
    type V = Map<Seq<char>, V>;

    closed spec fn view(&self) -> Map<Seq<char>, V> {
        map_of(self.entries@)
    }
}

/// A key of the map has an entry, the last one with that key, and conversely.
proof fn map_of_lookup<V>(entries: Seq<(String, V)>, k: Seq<char>, i: int)
    requires
        0 <= i < entries.len(),
        entries[i].0@ == k,
        forall|j: int| i < j < entries.len() ==> (#[trigger] entries[j]).0@ != k,
    ensures
        map_of(entries).contains_key(k),
        map_of(entries)[k] == entries[i].1,
    decreases entries.len(),
{
    if i < entries.len() - 1 {
        assert(entries.last().0@ != k);
        map_of_lookup(entries.drop_last(), k, i);
    }
}

proof fn map_of_absent<V>(entries: Seq<(String, V)>, k: Seq<char>)
    requires
        forall|j: int| 0 <= j < entries.len() ==> (#[trigger] entries[j]).0@ != k,
    ensures
        !map_of(entries).contains_key(k),
    decreases entries.len(),
{
    if entries.len() > 0 {
        assert(entries.last().0@ != k);
        map_of_absent(entries.drop_last(), k);
    }
}

impl<V> TextMap<V> {
    /// An empty map.
    pub fn new() -> (m: Self)
        ensures
            m@ == Map::<Seq<char>, V>::empty(),
    {
        TextMap { entries: Vec::new() }
    }

    /// The value of a key.
    pub fn get(&self, key: &str) -> (r: Option<&V>)
        ensures
            match r {
                Some(v) => self@.contains_key(key@) && self@[key@] == *v,
                None => !self@.contains_key(key@),
            },
    {
        let mut n: usize = self.entries.len();
        while n > 0
            invariant
                n <= self.entries@.len(),
                forall|j: int| n <= j < self.entries@.len() ==> (
                #[trigger] self.entries@[j]).0@ != key@,
            decreases n,
        {
            if same_text(self.entries[n - 1].0.as_str(), key) {
                proof {
                    map_of_lookup(self.entries@, key@, n - 1);
                }
                return Some(&self.entries[n - 1].1);
            }
            n -= 1;
        }
        proof {
            map_of_absent(self.entries@, key@);
        }
        None
    }

    /// Whether there is no entry.
    pub fn is_empty(&self) -> (r: bool)
        ensures
            r == (self@ == Map::<Seq<char>, V>::empty()),
    {
        proof {
            if self.entries@.len() > 0 {
                let k = self.entries@.last().0@;
                assert(self@.contains_key(k));
                assert(!Map::<Seq<char>, V>::empty().contains_key(k));
            }
        }
        self.entries.len() == 0
    }

    /// Takes a key out.
    pub fn remove(&mut self, key: &str)
        ensures
            final(self)@ == old(self)@.remove(key@),
    {
        let mut i: usize = 0;
        while i < self.entries.len()
            invariant
                i <= self.entries@.len(),
                map_of(self.entries@).remove(key@) == map_of(old(self).entries@).remove(key@),
                forall|j: int| 0 <= j < i ==> (#[trigger] self.entries@[j]).0@ != key@,
            decreases self.entries@.len() - i,
        {
            if same_text(self.entries[i].0.as_str(), key) {
                proof {
                    map_of_without(self.entries@, key@, i as int);
                }
                let _gone = self.entries.remove(i);
            } else {
                i += 1;
            }
        }
        proof {
            map_of_absent(self.entries@, key@);
            assert(map_of(self.entries@) =~= map_of(self.entries@).remove(key@));
        }
    }

    /// Sets the value of a key.
    pub fn insert(&mut self, key: &str, value: V)
        ensures
            final(self)@ == old(self)@.insert(key@, value),
    {
        self.remove(key);
        let ghost before = self.entries@;
        self.entries.push((key.to_owned(), value));
        proof {
            assert(self.entries@.drop_last() =~= before);
            assert(self@ =~= old(self)@.insert(key@, value));
        }
    }
}

/// Dropping an entry with key `k` changes nothing but that key.
proof fn map_of_without<V>(entries: Seq<(String, V)>, k: Seq<char>, i: int)
    requires
        0 <= i < entries.len(),
        entries[i].0@ == k,
    ensures
        map_of(entries.remove(i)).remove(k) == map_of(entries).remove(k),
    decreases entries.len(),
{
    if i == entries.len() - 1 {
        assert(entries.remove(i) =~= entries.drop_last());
        assert(map_of(entries.remove(i)).remove(k) =~= map_of(entries).remove(k));
    } else {
        map_of_without(entries.drop_last(), k, i);
        assert(entries.remove(i).drop_last() =~= entries.drop_last().remove(i));
        assert(entries.remove(i).last() == entries.last());
        let a = map_of(entries.remove(i));
        let b = map_of(entries);
        assert forall|x: Seq<char>| #[trigger] a.remove(k).contains_key(x) == b.remove(
            k,
        ).contains_key(x) by {
            if x != k {
                let c = map_of(entries.drop_last().remove(i)).remove(k);
                let d = map_of(entries.drop_last()).remove(k);
                assert(c.contains_key(x) == d.contains_key(x));
            }
        }
        assert forall|x: Seq<char>| #[trigger] a.remove(k).contains_key(x) implies a.remove(k)[x]
            == b.remove(k)[x] by {
            let c = map_of(entries.drop_last().remove(i)).remove(k);
            let d = map_of(entries.drop_last()).remove(k);
            assert(c.contains_key(x) == d.contains_key(x));
            if x != entries.last().0@ {
                assert(c[x] == d[x]);
            }
        }
        assert(a.remove(k) =~= b.remove(k));
    }
}

/// A set of texts.
#[derive(Debug)]
pub struct TextSet {
    entries: Vec<String>,
}

impl View for TextSet {
    type V = Set<Seq<char>>;

    closed spec fn view(&self) -> Set<Seq<char>> {
        texts_of(self.entries@)
    }
}

/// The texts in a list.
pub open spec fn texts_of(names: Seq<String>) -> Set<Seq<char>> {
    names.map_values(|s: String| s@).to_set()
}

impl TextSet {
    /// An empty set.
    pub fn new() -> (s: Self)
        ensures
            s@ == Set::<Seq<char>>::empty(),
    {
        let s = TextSet { entries: Vec::new() };
        assert(s@ =~= Set::<Seq<char>>::empty());
        s
    }

    /// Whether a text is in the set.
    pub fn contains(&self, key: &str) -> (r: bool)
        ensures
            r == self@.contains(key@),
    {
        let ghost view = self.entries@.map_values(|s: String| s@);
        let mut i: usize = 0;
        while i < self.entries.len()
            invariant
                i <= self.entries@.len(),
                view == self.entries@.map_values(|s: String| s@),
                forall|j: int| 0 <= j < i ==> view[j] != key@,
            decreases self.entries@.len() - i,
        {
            if same_text(self.entries[i].as_str(), key) {
                assert(view[i as int] == key@);
                return true;
            }
            assert(view[i as int] != key@);
            i += 1;
        }
        false
    }

    /// Puts a text in the set.
    pub fn insert(&mut self, key: &str)
        ensures
            final(self)@ == old(self)@.insert(key@),
    {
        if self.contains(key) {
            assert(self@.insert(key@) =~= self@);
            return;
        }
        let ghost before = self.entries@.map_values(|s: String| s@);
        self.entries.push(key.to_owned());
        proof {
            let after = self.entries@.map_values(|s: String| s@);
            assert(after =~= before.push(key@));
            assert(after[before.len() as int] == key@);
            assert forall|x: Seq<char>| #[trigger] after.contains(x) == (before.contains(x) || x
                == key@) by {
                if before.contains(x) {
                    let k = choose|k: int| 0 <= k < before.len() && before[k] == x;
                    assert(after[k] == x);
                }
                if after.contains(x) && x != key@ {
                    let k = choose|k: int| 0 <= k < after.len() && after[k] == x;
                    assert(before[k] == x);
                }
            }
            assert(self@ =~= old(self)@.insert(key@));
        }
    }

    /// The texts of the set.
    pub fn names(&self) -> (r: Vec<String>)
        ensures
            texts_of(r@) == self@,
    {
        let mut out: Vec<String> = Vec::new();
        let mut i: usize = 0;
        while i < self.entries.len()
            invariant
                i <= self.entries@.len(),
                out@.len() == i,
                forall|j: int| 0 <= j < i ==> out@[j]@ == self.entries@[j]@,
            decreases self.entries@.len() - i,
        {
            out.push(self.entries[i].clone());
            i += 1;
        }
        assert(out@.map_values(|s: String| s@) =~= self.entries@.map_values(|s: String| s@));
        out
    }
}

} // verus!
