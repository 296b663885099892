//! A small map keyed by in-match integer identifiers.

use vstd::prelude::*;

verus! {

/// `s` holds each key once, and its entries are exactly the pairs of `m`.
pub open spec fn entries_agree<V>(s: Seq<(i32, V)>, m: Map<i32, V>) -> bool {
    &&& forall|i: int, j: int| 0 <= i < j < s.len() ==> #[trigger] s[i].0 != #[trigger] s[j].0
    &&& forall|i: int| 0 <= i < s.len() ==> m.contains_key(#[trigger] s[i].0) && m[s[i].0] == s[i].1
    &&& forall|k: i32| #[trigger] m.contains_key(k) ==> exists|i: int| 0 <= i < s.len() && #[trigger] s[i].0 == k
}

/// A map from `i32` identifiers to values, stored as a list of entries with
/// distinct keys. Entries keep the order in which their keys first arrived.
pub struct IdMap<V> {
    entries: Vec<(i32, V)>,
    contents: Ghost<Map<i32, V>>,
}

impl<V> View for IdMap<V> {
    type V = Map<i32, V>;

    closed spec fn view(&self) -> Map<i32, V> {
        self.contents@
    }
}

impl<V> IdMap<V> {
    /// The entries and the map view agree.
    pub closed spec fn wf(&self) -> bool {
        entries_agree(self.entries@, self.contents@)
    }

    pub fn new() -> (r: Self)
        ensures
            r.wf(),
            r@ == Map::<i32, V>::empty(),
    {
        IdMap { entries: Vec::new(), contents: Ghost(Map::empty()) }
    }

    fn find(&self, k: i32) -> (r: Option<usize>)
        requires
            self.wf(),
        ensures
            match r {
                Some(i) => i < self.entries@.len() && self.entries@[i as int].0 == k,
                None => !self@.contains_key(k),
            },
    {
        let mut i: usize = 0;
        while i < self.entries.len()
            invariant
                self.wf(),
                i <= self.entries@.len(),
                forall|j: int| 0 <= j < i ==> self.entries@[j].0 != k,
            decreases self.entries.len() - i,
        {
            if self.entries[i].0 == k {
                return Some(i);
            }
            i = i + 1;
        }
        None
    }

    pub fn get(&self, k: i32) -> (r: Option<&V>)
        requires
            self.wf(),
        ensures
            match r {
                Some(v) => self@.contains_key(k) && *v == self@[k],
                None => !self@.contains_key(k),
            },
    {
        match self.find(k) {
            Some(i) => Some(&self.entries[i].1),
            None => None,
        }
    }

    pub fn insert(&mut self, k: i32, v: V)
        requires
            old(self).wf(),
        ensures
            final(self).wf(),
            final(self)@ == old(self)@.insert(k, v),
    {
        let ghost old_entries = self.entries@;
        let ghost old_map = self.contents@;
        let ghost new_map = self.contents@.insert(k, v);
        match self.find(k) {
            Some(i) => {
                self.entries.set(i, (k, v));
                proof {
                    let s = self.entries@;
                    assert forall|j: int| 0 <= j < s.len() implies #[trigger] s[j].0 == old_entries[j].0 by {}
                    assert forall|j: int| 0 <= j < s.len() implies
                        new_map.contains_key(#[trigger] s[j].0) && new_map[s[j].0] == s[j].1 by {
                        if j != i {
                            assert(old_entries[j].0 != old_entries[i as int].0);
                        }
                    }
                    assert forall|q: i32| #[trigger] new_map.contains_key(q) implies
                        exists|j: int| 0 <= j < s.len() && #[trigger] s[j].0 == q by {
                        if q == k {
                            assert(s[i as int].0 == q);
                        } else {
                            assert(old_map.contains_key(q));
                            let j = choose|j: int| 0 <= j < old_entries.len() && #[trigger] old_entries[j].0 == q;
                            assert(s[j].0 == q);
                        }
                    }
                }
            },
            None => {
                self.entries.push((k, v));
                proof {
                    let s = self.entries@;
                    assert forall|j: int| 0 <= j < old_entries.len() implies #[trigger] old_entries[j].0 != k by {
                        assert(old_map.contains_key(old_entries[j].0));
                    }
                    assert forall|j: int| 0 <= j < old_entries.len() implies #[trigger] s[j] == old_entries[j] by {}
                    assert forall|q: i32| #[trigger] new_map.contains_key(q) implies
                        exists|j: int| 0 <= j < s.len() && #[trigger] s[j].0 == q by {
                        if q == k {
                            assert(s[old_entries.len() as int].0 == q);
                        } else {
                            assert(old_map.contains_key(q));
                            let j = choose|j: int| 0 <= j < old_entries.len() && #[trigger] old_entries[j].0 == q;
                            assert(s[j].0 == q);
                        }
                    }
                }
            },
        }
        self.contents = Ghost(new_map);
        assert(entries_agree(self.entries@, self.contents@));
    }

    /// Removes the entry of `k` and hands back its value.
    pub fn take(&mut self, k: i32) -> (r: Option<V>)
        requires
            old(self).wf(),
        ensures
            final(self).wf(),
            final(self)@ == old(self)@.remove(k),
            r == (if old(self)@.contains_key(k) { Some(old(self)@[k]) } else { None::<V> }),
    {
        match self.find(k) {
            Some(i) => {
                let ghost old_entries = self.entries@;
                let (_, v) = self.entries.remove(i);
                self.contents = Ghost(self.contents@.remove(k));
                proof {
                    let s = self.entries@;
                    let m = self.contents@;
                    assert forall|j: int| 0 <= j < s.len() implies
                        #[trigger] s[j] == old_entries[if j < i { j } else { j + 1 }] by {}
                    assert forall|j: int| 0 <= j < s.len() implies
                        m.contains_key(#[trigger] s[j].0) && m[s[j].0] == s[j].1 by {
                        let jj = if j < i { j } else { j + 1 };
                        assert(s[j] == old_entries[jj]);
                        assert(old_entries[jj].0 != old_entries[i as int].0);
                    }
                    assert forall|q: i32| #[trigger] m.contains_key(q) implies
                        exists|j: int| 0 <= j < s.len() && #[trigger] s[j].0 == q by {
                        let jj = choose|j: int| 0 <= j < old_entries.len() && #[trigger] old_entries[j].0 == q;
                        assert(jj != i);
                        let j = if jj < i { jj } else { jj - 1 };
                        assert(s[j] == old_entries[jj]);
                    }
                    assert forall|a: int, b: int| 0 <= a < b < s.len() implies #[trigger] s[a].0 != #[trigger] s[b].0 by {
                        let aa = if a < i { a } else { a + 1 };
                        let bb = if b < i { b } else { b + 1 };
                        assert(s[a] == old_entries[aa]);
                        assert(s[b] == old_entries[bb]);
                    }
                }
                Some(v)
            },
            None => {
                assert(self.contents@.remove(k) =~= self.contents@);
                None
            },
        }
    }

    pub fn clear(&mut self)
        ensures
            final(self).wf(),
            final(self)@ == Map::<i32, V>::empty(),
    {
        self.entries.clear();
        self.contents = Ghost(Map::empty());
    }

    /// The entries as a list, each key once.
    pub fn into_vec(self) -> (r: Vec<(i32, V)>)
        requires
            self.wf(),
        ensures
            entries_agree(r@, self@),
    {
        self.entries
    }
}

} // verus!
