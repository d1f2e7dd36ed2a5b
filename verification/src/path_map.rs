//! A map keyed by path, where two paths are the same key if they have the same components.
use crate::path;
use crate::path::{PathBuf, PathKey};
use vstd::prelude::*;

verus! {

/// A map from paths to values.
///
/// The entry nearest to the front counts for its path.
#[derive(Debug)]
pub struct PathMap<T> {
    pub entries: Vec<(PathBuf, T)>,
}

/// The entries of a map, each with its key.
pub open spec fn pairs<T: View>(entries: Seq<(PathBuf, T)>) -> Seq<(PathKey, T::V)> {
    entries.map_values(|e: (PathBuf, T)| (path::components(e.0@), e.1@))
}

/// The map that a list of entries stands for.
pub open spec fn map_of<W>(s: Seq<(PathKey, W)>) -> Map<PathKey, W>
    decreases s.len(),
{
    if s.len() == 0 {
        Map::empty()
    } else {
        map_of(s.drop_first()).insert(s[0].0, s[0].1)
    }
}

impl<T: View> View for PathMap<T> {
    type V = Map<PathKey, T::V>;

    open spec fn view(&self) -> Map<PathKey, T::V> {
        map_of(pairs(self.entries@))
    }
}

/// A key that no entry has is not in the map; the first entry that has it counts.
proof fn lemma_map_of<W>(s: Seq<(PathKey, W)>, k: PathKey, n: int)
    requires
        0 <= n <= s.len(),
        forall|i: int| 0 <= i < n ==> #[trigger] s[i].0 != k,
        n < s.len() ==> s[n].0 == k,
    ensures
        map_of(s).contains_key(k) == (n < s.len()),
        n < s.len() ==> map_of(s)[k] == s[n].1,
    decreases s.len(),
{
    if s.len() > 0 && n > 0 {
        let t = s.drop_first();
        assert forall|i: int| 0 <= i < n - 1 implies #[trigger] t[i].0 != k by {
            assert(t[i] == s[i + 1]);
        }
        assert(s[0].0 != k);
        lemma_map_of(t, k, n - 1);
    }
}

proof fn lemma_map_of_push<W>(s: Seq<(PathKey, W)>, k: PathKey, w: W)
    requires
        forall|i: int| 0 <= i < s.len() ==> #[trigger] s[i].0 != k,
    ensures
        map_of(s.push((k, w))) == map_of(s).insert(k, w),
    decreases s.len(),
{
    let p = s.push((k, w));
    if s.len() == 0 {
        assert(p.drop_first() =~= s);
    } else {
        let t = s.drop_first();
        assert forall|i: int| 0 <= i < t.len() implies #[trigger] t[i].0 != k by {
            assert(t[i] == s[i + 1]);
        }
        lemma_map_of_push(t, k, w);
        assert(p.drop_first() =~= t.push((k, w)));
        assert(s[0].0 != k);
        assert(map_of(p) =~= map_of(s).insert(k, w));
    }
}

proof fn lemma_map_of_update<W>(s: Seq<(PathKey, W)>, n: int, w: W)
    requires
        0 <= n < s.len(),
        forall|i: int| 0 <= i < n ==> #[trigger] s[i].0 != s[n].0,
    ensures
        map_of(s.update(n, (s[n].0, w))) == map_of(s).insert(s[n].0, w),
    decreases s.len(),
{
    let k = s[n].0;
    let u = s.update(n, (k, w));
    let t = s.drop_first();
    if n == 0 {
        assert(u.drop_first() =~= t);
        assert(map_of(u) =~= map_of(s).insert(k, w));
    } else {
        assert forall|i: int| 0 <= i < n - 1 implies #[trigger] t[i].0 != t[n - 1].0 by {
            assert(t[i] == s[i + 1]);
        }
        lemma_map_of_update(t, n - 1, w);
        assert(u.drop_first() =~= t.update(n - 1, (k, w)));
        assert(s[0].0 != k);
        assert(map_of(u) =~= map_of(s).insert(k, w));
    }
}

/// Taking out the first entry for `k` changes the map for `k` alone.
proof fn lemma_map_of_remove<W>(s: Seq<(PathKey, W)>, n: int)
    requires
        0 <= n < s.len(),
        forall|i: int| 0 <= i < n ==> #[trigger] s[i].0 != s[n].0,
    ensures
        map_of(s.remove(n)).remove(s[n].0) == map_of(s).remove(s[n].0),
    decreases s.len(),
{
    let k = s[n].0;
    let r = s.remove(n);
    let t = s.drop_first();
    if n == 0 {
        assert(r =~= t);
        assert(map_of(r).remove(k) =~= map_of(s).remove(k));
    } else {
        assert forall|i: int| 0 <= i < n - 1 implies #[trigger] t[i].0 != t[n - 1].0 by {
            assert(t[i] == s[i + 1]);
        }
        lemma_map_of_remove(t, n - 1);
        assert(r.drop_first() =~= t.remove(n - 1));
        assert(r[0] == s[0]);
        assert(s[0].0 != k);
        let a = map_of(r.drop_first());
        let b = map_of(t);
        assert(a.remove(k) == b.remove(k));
        assert(map_of(r).remove(k) =~= a.remove(k).insert(s[0].0, s[0].1));
        assert(map_of(s).remove(k) =~= b.remove(k).insert(s[0].0, s[0].1));
    }
}

impl<T: View> PathMap<T> {
    /// An empty map.
    pub fn new() -> (r: PathMap<T>)
        ensures
            r@ == Map::<PathKey, T::V>::empty(),
    {
        PathMap { entries: Vec::new() }
    }

    /// The index of the first entry for `key`, or the number of entries.
    fn find(&self, key: &PathBuf) -> (n: usize)
        ensures
            n <= self.entries@.len(),
            forall|i: int|
                0 <= i < n ==> #[trigger] pairs(self.entries@)[i].0 != path::components(key@),
            n < self.entries@.len() ==> pairs(self.entries@)[n as int].0 == path::components(key@),
    {
        let mut i: usize = 0;
        while i < self.entries.len()
            invariant
                i <= self.entries@.len(),
                forall|j: int|
                    0 <= j < i ==> #[trigger] pairs(self.entries@)[j].0 != path::components(key@),
            decreases self.entries@.len() - i,
        {
            if self.entries[i].0.same(key) {
                return i;
            }
            i = i + 1;
        }
        i
    }

    pub fn contains(&self, key: &PathBuf) -> (r: bool)
        ensures
            r == self@.contains_key(path::components(key@)),
    {
        let n = self.find(key);
        proof {
            lemma_map_of(pairs(self.entries@), path::components(key@), n as int);
        }
        n < self.entries.len()
    }

    /// The value at `key`.
    pub fn get(&self, key: &PathBuf) -> (r: Option<&T>)
        ensures
            match r {
                Some(v) => self@.contains_key(path::components(key@)) && self@[path::components(
                    key@,
                )] == v@,
                None => !self@.contains_key(path::components(key@)),
            },
    {
        let n = self.find(key);
        proof {
            lemma_map_of(pairs(self.entries@), path::components(key@), n as int);
        }
        if n < self.entries.len() {
            Some(&self.entries[n].1)
        } else {
            None
        }
    }

    /// Set the value at `key`.
    pub fn insert(&mut self, key: PathBuf, value: T)
        ensures
            final(self)@ == old(self)@.insert(path::components(key@), value@),
    {
        let n = self.find(&key);
        let ghost before = pairs(self.entries@);
        let ghost k = path::components(key@);
        if n < self.entries.len() {
            proof {
                lemma_map_of_update(before, n as int, value@);
            }
            let ghost v = value@;
            self.entries.set(n, (key, value));
            assert(pairs(self.entries@) =~= before.update(n as int, (k, v)));
        } else {
            proof {
                lemma_map_of_push(before, k, value@);
            }
            let ghost v = value@;
            self.entries.push((key, value));
            assert(pairs(self.entries@) =~= before.push((k, v)));
        }
    }

    /// Take out the value at `key`.
    pub fn remove(&mut self, key: &PathBuf) -> (r: Option<T>)
        ensures
            final(self)@ == old(self)@.remove(path::components(key@)),
            match r {
                Some(v) => old(self)@.contains_key(path::components(key@))
                    && old(self)@[path::components(key@)] == v@,
                None => !old(self)@.contains_key(path::components(key@)),
            },
    {
        let ghost k = path::components(key@);
        let ghost before = pairs(self.entries@);
        let mut n: usize = self.find(key);
        proof {
            lemma_map_of(before, k, n as int);
        }
        if n >= self.entries.len() {
            assert(map_of(before).remove(k) =~= map_of(before));
            return None;
        }
        proof {
            lemma_map_of_remove(before, n as int);
        }
        let (_, value) = self.entries.remove(n);
        assert(pairs(self.entries@) =~= before.remove(n as int));
        n = self.find(key);
        while n < self.entries.len()
            invariant
                k == path::components(key@),
                n <= self.entries@.len(),
                map_of(pairs(self.entries@)).remove(k) == map_of(before).remove(k),
                forall|i: int| 0 <= i < n ==> #[trigger] pairs(self.entries@)[i].0 != k,
                n < self.entries@.len() ==> pairs(self.entries@)[n as int].0 == k,
            decreases self.entries@.len(),
        {
            let ghost now = pairs(self.entries@);
            proof {
                lemma_map_of_remove(now, n as int);
            }
            let _ = self.entries.remove(n);
            assert(pairs(self.entries@) =~= now.remove(n as int));
            n = self.find(key);
        }
        proof {
            let now = pairs(self.entries@);
            lemma_map_of(now, k, n as int);
            assert(map_of(now).remove(k) =~= map_of(now));
        }
        Some(value)
    }
}

} // verus!
