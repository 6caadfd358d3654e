//! A map keyed by names, with the keys kept in a vector so that the entries
//! can be walked, and a hash index from each name to its entry.

use vstd::prelude::*;
use vstd::hash_map::StringHashMap;

verus! {

/// The names of a sequence of entries, in order.
pub open spec fn entry_names<V>(s: Seq<(String, V)>) -> Seq<Seq<char>> {
    s.map_values(|e: (String, V)| e.0@)
}

/// The entries `s` list the map `m`: each name once, each with its value,
/// and no other name.
pub open spec fn lists<V: View>(s: Seq<(String, V)>, m: Map<Seq<char>, V::V>) -> bool {
    &&& entry_names(s).no_duplicates()
    &&& entry_names(s).to_set() == m.dom()
    &&& s.len() == m.len()
    &&& forall|i: int| 0 <= i < s.len() ==> #[trigger] m[s[i].0@] == s[i].1@
}

/// The names of the entries from position `r` on are those from `r + 1` on,
/// and the name at `r`, which is not among them when no name repeats.
pub proof fn lemma_suffix_names<V>(all: Seq<(String, V)>, r: int)
    requires
        0 <= r < all.len(),
    ensures
        entry_names(all.subrange(r, all.len() as int)).to_set() == entry_names(
            all.subrange(r + 1, all.len() as int),
        ).to_set().insert(all[r].0@),
        entry_names(all).no_duplicates() ==> !entry_names(
            all.subrange(r + 1, all.len() as int),
        ).to_set().contains(all[r].0@),
{
    let x = all[r].0@;
    let sa = entry_names(all.subrange(r, all.len() as int));
    let sb = entry_names(all.subrange(r + 1, all.len() as int));
    assert(sa =~= seq![x] + sb);
    assert forall|y: Seq<char>| sa.contains(y) <==> (sb.contains(y) || y == x) by {
        if sa.contains(y) {
            let j = choose|j: int| 0 <= j < sa.len() && #[trigger] sa[j] == y;
            if j > 0 {
                assert(sb[j - 1] == y);
            }
        }
        if sb.contains(y) {
            let j = choose|j: int| 0 <= j < sb.len() && #[trigger] sb[j] == y;
            assert(sa[j + 1] == y);
        }
        if y == x {
            assert(sa[0] == x);
        }
    }
    assert(sa.to_set() =~= sb.to_set().insert(x));
    if entry_names(all).no_duplicates() && sb.to_set().contains(x) {
        let j = choose|j: int| 0 <= j < sb.len() && #[trigger] sb[j] == x;
        assert(entry_names(all)[r] == x);
        assert(entry_names(all)[r + 1 + j] == x);
    }
}

/// The entries but the last list the map without the last entry's name.
pub proof fn lemma_lists_drop_last<V: View>(s: Seq<(String, V)>, m: Map<Seq<char>, V::V>)
    requires
        lists(s, m),
        s.len() > 0,
    ensures
        lists(s.drop_last(), m.remove(s.last().0@)),
        m.contains_key(s.last().0@),
        m[s.last().0@] == s.last().1@,
{
    let x = s.last().0@;
    let n = s.len() - 1;
    let names = entry_names(s);
    let front = entry_names(s.drop_last());
    assert(front =~= names.drop_last());
    assert(names[n] == x);
    assert(names.to_set().contains(x));
    assert forall|y: Seq<char>| front.to_set().contains(y) <==> m.remove(x).dom().contains(y) by {
        if front.to_set().contains(y) {
            let j = choose|j: int| 0 <= j < front.len() && #[trigger] front[j] == y;
            assert(names[j] == y);
            assert(j != n);
        }
        if m.remove(x).dom().contains(y) {
            assert(names.to_set().contains(y));
            let j = choose|j: int| 0 <= j < names.len() && #[trigger] names[j] == y;
            assert(j != n);
            assert(front[j] == y);
        }
    }
    assert(front.to_set() =~= m.remove(x).dom());
    assert forall|i: int| 0 <= i < s.drop_last().len() implies #[trigger] m.remove(x)[s.drop_last()[i].0@]
        == s.drop_last()[i].1@ by {
        assert(names[i] != names[n]);
        assert(m[s[i].0@] == s[i].1@);
    }
    assert(m[s[n].0@] == s[n].1@);
}

/// A map from names to values. Its view is the mathematical map from each
/// name (as a sequence of `char`s) to the view of its value.
pub struct NameMap<V> {
    index: StringHashMap<usize>,
    entries: Vec<(String, V)>,
}

impl<V: View> View for NameMap<V> {
    type V = Map<Seq<char>, V::V>;

    closed spec fn view(&self) -> Map<Seq<char>, V::V> {
        Map::new(
            |k: Seq<char>| self.index@.contains_key(k),
            |k: Seq<char>| self.entries@[self.index@[k] as int].1@,
        )
    }
}

impl<V> NameMap<V> {
    /// Each entry's name is indexed at that entry's position, and each
    /// indexed name is at its position.
    #[verifier::type_invariant]
    closed spec fn well_formed(self) -> bool {
        &&& forall|i: int|
            0 <= i < self.entries@.len() ==> {
                &&& self.index@.contains_key(#[trigger] self.entries@[i].0@)
                &&& self.index@[self.entries@[i].0@] == i
            }
        &&& forall|k: Seq<char>|
            #[trigger] self.index@.contains_key(k) ==> {
                &&& self.index@[k] < self.entries@.len()
                &&& self.entries@[self.index@[k] as int].0@ == k
            }
    }

}

impl<V: View> NameMap<V> {
    proof fn lemma_lists(self)
        requires
            self.well_formed(),
        ensures
            lists(self.entries@, self@),
            self@.dom().finite(),
    {
        let names = entry_names(self.entries@);
        assert forall|i: int, j: int|
            0 <= i < names.len() && 0 <= j < names.len() && i != j implies names[i] != names[j] by {
            assert(self.entries@[i].0@ == names[i]);
            assert(self.entries@[j].0@ == names[j]);
        }
        assert(names.no_duplicates());
        assert forall|k: Seq<char>| names.to_set().contains(k) <==> self@.dom().contains(k) by {
            if names.to_set().contains(k) {
                let i = choose|i: int| 0 <= i < names.len() && names[i] == k;
                assert(self.entries@[i].0@ == k);
            }
            if self@.dom().contains(k) {
                let i = self.index@[k] as int;
                assert(names[i] == k);
            }
        }
        assert(names.to_set() =~= self@.dom());
        names.unique_seq_to_set();
        assert forall|i: int| 0 <= i < self.entries@.len() implies
            #[trigger] self@[self.entries@[i].0@] == self.entries@[i].1@ by {
            assert(self.index@.contains_key(self.entries@[i].0@));
        }
    }

    /// An empty map.
    pub fn new() -> (m: Self)
        ensures
            m@ == Map::<Seq<char>, V::V>::empty(),
    {
        let m = NameMap { index: StringHashMap::new(), entries: Vec::new() };
        assert(m@ =~= Map::<Seq<char>, V::V>::empty());
        m
    }

    /// The number of names in the map.
    pub fn len(&self) -> (n: usize)
        ensures
            n == self@.len(),
            self@.dom().finite(),
    {
        proof {
            use_type_invariant(self);
            self.lemma_lists();
        }
        self.entries.len()
    }

    /// The value of the name `k`, if the map holds it.
    pub fn get(&self, k: &str) -> (r: Option<&V>)
        ensures
            match r {
                Some(v) => self@.contains_key(k@) && v@ == self@[k@],
                None => !self@.contains_key(k@),
            },
    {
        proof {
            use_type_invariant(self);
        }
        match self.index.get(k) {
            Some(pos) => Some(&self.entries[*pos].1),
            None => None,
        }
    }

    /// Sets the value of the name `k` to `v`, in place of any value it had.
    pub fn insert(&mut self, k: String, v: V)
        ensures
            final(self)@ == old(self)@.insert(k@, v@),
    {
        proof {
            use_type_invariant(&*self);
        }
        let ghost before = self@;
        let mut taken = NameMap::new();
        std::mem::swap(&mut taken, self);
        proof {
            use_type_invariant(&taken);
        }
        assert(taken@ == before);
        let NameMap { mut index, mut entries } = taken;
        let ghost old_index = index@;
        let ghost old_entries = entries@;
        match index.get(k.as_str()) {
            Some(pos) => {
                let i = *pos;
                entries.set(i, (k, v));
            },
            None => {
                let i = entries.len();
                index.insert(k.clone(), i);
                entries.push((k, v));
                assert(entries@[i as int].0@ == k@);
            },
        }
        let result = NameMap { index, entries };
        assert(result@ =~= before.insert(k@, v@));
        *self = result;
    }

    /// Takes the name `k` out of the map, and gives back its value if it had
    /// one.
    pub fn remove(&mut self, k: &str) -> (r: Option<V>)
        ensures
            final(self)@ == old(self)@.remove(k@),
            match r {
                Some(v) => old(self)@.contains_key(k@) && v@ == old(self)@[k@],
                None => !old(self)@.contains_key(k@),
            },
    {
        proof {
            use_type_invariant(&*self);
        }
        let ghost before = self@;
        let mut taken = NameMap::new();
        std::mem::swap(&mut taken, self);
        proof {
            use_type_invariant(&taken);
        }
        assert(taken@ == before);
        let NameMap { mut index, mut entries } = taken;
        let ghost old_index = index@;
        let ghost old_entries = entries@;
        let found = match index.get(k) {
            Some(pos) => Some(*pos),
            None => None,
        };
        match found {
            None => {
                *self = NameMap { index, entries };
                assert(self@ =~= before.remove(k@));
                None
            },
            Some(i) => {
                index.remove(k);
                let last = entries.len() - 1;
                let removed = entries.swap_remove(i);
                if i < last {
                    let moved = entries[i].0.clone();
                    assert(moved@ == old_entries[last as int].0@);
                    index.insert(moved, i);
                }
                let result = NameMap { index, entries };
                assert(result@ =~= before.remove(k@));
                *self = result;
                Some(removed.1)
            },
        }
    }

    /// The entries of the map, each name once, in no particular order.
    pub fn into_entries(self) -> (v: Vec<(String, V)>)
        ensures
            lists(v@, self@),
            self@.dom().finite(),
    {
        proof {
            use_type_invariant(&self);
            self.lemma_lists();
        }
        let NameMap { index, entries } = self;
        entries
    }

    /// A view of the entries of the map, each name once, in no particular
    /// order.
    pub fn entries(&self) -> (v: &[(String, V)])
        ensures
            lists(v@, self@),
            self@.dom().finite(),
    {
        proof {
            use_type_invariant(self);
            self.lemma_lists();
        }
        self.entries.as_slice()
    }
}

} // verus!
