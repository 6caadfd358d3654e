//! Values that combine when two maps holding them are merged, and the merge
//! of one map into another.

use vstd::prelude::*;
use crate::merge::{lemma_merge_identity, merge_with};
use crate::name_map::{entry_names, lemma_suffix_names, lists, NameMap};

verus! {

/// A value that two records of the same name combine into one.
pub trait Joinable: View + Sized {
    /// How two views combine.
    spec fn joiner() -> spec_fn(Self::V, Self::V) -> Self::V;

    /// Whether two values can combine without a count overflowing.
    spec fn joins(x: Self::V, y: Self::V) -> bool;

    /// Whether `self` and `other` can combine.
    fn joins_with(&self, other: &Self) -> (r: bool)
        ensures
            r == Self::joins(self@, other@),
    ;

    /// Combines two values.
    fn join(self, other: Self) -> (r: Self)
        requires
            Self::joins(self@, other@),
        ensures
            r@ == (Self::joiner())(self@, other@),
    ;
}

/// Every name held by both maps has values that can combine.
pub open spec fn all_join<V: Joinable>(a: Map<Seq<char>, V::V>, b: Map<Seq<char>, V::V>) -> bool {
    forall|k: Seq<char>|
        a.contains_key(k) && b.contains_key(k) ==> #[trigger] V::joins(a[k], b[k])
}

/// Whether the maps `a` and `b` can be merged: whether every name held by
/// both has values that can combine.
pub fn can_merge<V: Joinable>(a: &NameMap<V>, b: &NameMap<V>) -> (r: bool)
    ensures
        r == all_join::<V>(a@, b@),
{
    let entries = b.entries();
    let mut i: usize = 0;
    while i < entries.len()
        invariant
            lists(entries@, b@),
            i <= entries@.len(),
            forall|j: int|
                0 <= j < i ==> (a@.contains_key(#[trigger] entries@[j].0@) ==> V::joins(
                    a@[entries@[j].0@],
                    b@[entries@[j].0@],
                )),
        decreases entries.len() - i,
    {
        let (name, v) = &entries[i];
        match a.get(name.as_str()) {
            Some(av) => {
                if !av.joins_with(v) {
                    assert(entry_names(entries@)[i as int] == name@);
                    assert(entry_names(entries@).to_set().contains(name@));
                    assert(b@.contains_key(name@));
                    assert(b@[entries@[i as int].0@] == entries@[i as int].1@);
                    return false;
                }
            },
            None => {},
        }
        i = i + 1;
    }
    assert forall|k: Seq<char>| a@.contains_key(k) && b@.contains_key(k) implies #[trigger] V::joins(
        a@[k],
        b@[k],
    ) by {
        assert(entry_names(entries@).to_set().contains(k));
        let j = choose|j: int| 0 <= j < entries@.len() && #[trigger] entry_names(entries@)[j] == k;
        assert(entries@[j].0@ == k);
    }
    true
}

/// Merges `other` into `target`: a name of either ends up in `target`, with
/// the values of a name held by both combined.
pub fn merge_into<V: Joinable>(target: &mut NameMap<V>, other: NameMap<V>)
    requires
        all_join::<V>(old(target)@, other@),
    ensures
        final(target)@ == merge_with(old(target)@, other@, V::joiner()),
{
    let ghost a0 = target@;
    let ghost b = other@;
    let mut rest = other.into_entries();
    let ghost all = rest@;
    assert(all.subrange(all.len() as int, all.len() as int) =~= Seq::<(String, V)>::empty());
    assert(entry_names(Seq::<(String, V)>::empty()).to_set() =~= Set::<Seq<char>>::empty());
    assert(b.restrict(Set::<Seq<char>>::empty()) =~= Map::<Seq<char>, V::V>::empty());
    proof {
        lemma_merge_identity(a0, V::joiner());
    }
    while rest.len() > 0
        invariant
            lists(all, b),
            rest@.len() <= all.len(),
            rest@ == all.subrange(0, rest@.len() as int),
            all_join::<V>(a0, b),
            target@ == merge_with(
                a0,
                b.restrict(entry_names(all.subrange(rest@.len() as int, all.len() as int)).to_set()),
                V::joiner(),
            ),
        decreases rest.len(),
    {
        let ghost r = rest@.len() - 1;
        let ghost done_before = entry_names(all.subrange(r + 1, all.len() as int)).to_set();
        let ghost done_after = entry_names(all.subrange(r, all.len() as int)).to_set();
        let ghost x = all[r].0@;
        let ghost before = target@;
        assert(rest@[r] == all[r]);
        let (name, v) = rest.pop().unwrap();
        assert(name@ == x && v@ == b[x]) by {
            assert(b[all[r].0@] == all[r].1@);
        }
        proof {
            lemma_suffix_names(all, r);
        }
        assert(entry_names(all).to_set().contains(x)) by {
            assert(entry_names(all)[r] == x);
        }
        match target.remove(name.as_str()) {
            Some(old_v) => {
                assert(a0.contains_key(x));
                let joined = old_v.join(v);
                target.insert(name, joined);
            },
            None => {
                target.insert(name, v);
            },
        }
        assert(target@ =~= merge_with(a0, b.restrict(done_after), V::joiner()));
    }
    assert(all.subrange(0, all.len() as int) =~= all);
    assert(b.restrict(entry_names(all).to_set()) =~= b);
}

impl Joinable for u64 {
    open spec fn joiner() -> spec_fn(u64, u64) -> u64 {
        |x: u64, y: u64| (x + y) as u64
    }

    open spec fn joins(x: u64, y: u64) -> bool {
        x + y <= u64::MAX
    }

    fn joins_with(&self, other: &u64) -> (r: bool) {
        *self <= u64::MAX - *other
    }

    fn join(self, other: u64) -> (r: u64) {
        self + other
    }
}

} // verus!
