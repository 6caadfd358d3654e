//! Merging two keyed tallies: the keys of either, with the values of a key
//! held by both combined.

use vstd::prelude::*;

verus! {

/// The map with the keys of `a` and of `b`; a key held by both maps to
/// `f` of its two values, a key held by one maps to its value there.
pub open spec fn merge_with<K, V>(a: Map<K, V>, b: Map<K, V>, f: spec_fn(V, V) -> V) -> Map<K, V> {
    Map::new(
        |k: K| a.contains_key(k) || b.contains_key(k),
        |k: K|
            if a.contains_key(k) && b.contains_key(k) {
                f(a[k], b[k])
            } else if a.contains_key(k) {
                a[k]
            } else {
                b[k]
            },
    )
}

/// Merging the maps of a sequence one after the other, from the empty map.
pub open spec fn fold_with<K, V>(maps: Seq<Map<K, V>>, f: spec_fn(V, V) -> V) -> Map<K, V>
    decreases maps.len(),
{
    if maps.len() == 0 {
        Map::empty()
    } else {
        merge_with(fold_with(maps.drop_last(), f), maps.last(), f)
    }
}

/// `f` is associative.
pub open spec fn associative<V>(f: spec_fn(V, V) -> V) -> bool {
    forall|x: V, y: V, z: V| #[trigger] f(f(x, y), z) == f(x, #[trigger] f(y, z))
}

/// `f` is commutative.
pub open spec fn commutative<V>(f: spec_fn(V, V) -> V) -> bool {
    forall|x: V, y: V| #[trigger] f(x, y) == f(y, x)
}

/// Addition of counts.
pub open spec fn add_nat() -> spec_fn(nat, nat) -> nat {
    |x: nat, y: nat| x + y
}

pub proof fn lemma_add_nat()
    ensures
        associative(add_nat()),
        commutative(add_nat()),
{
}

/// The empty map is an identity of merging, on either side.
pub proof fn lemma_merge_identity<K, V>(a: Map<K, V>, f: spec_fn(V, V) -> V)
    ensures
        merge_with(a, Map::empty(), f) == a,
        merge_with(Map::empty(), a, f) == a,
{
    assert(merge_with(a, Map::empty(), f) =~= a);
    assert(merge_with(Map::empty(), a, f) =~= a);
}

/// Merging is commutative when `f` is.
pub proof fn lemma_merge_commutative<K, V>(a: Map<K, V>, b: Map<K, V>, f: spec_fn(V, V) -> V)
    requires
        commutative(f),
    ensures
        merge_with(a, b, f) == merge_with(b, a, f),
{
    assert forall|k: K| #[trigger] merge_with(a, b, f).contains_key(k) implies merge_with(
        a,
        b,
        f,
    )[k] == merge_with(b, a, f)[k] by {
        if a.contains_key(k) && b.contains_key(k) {
            assert(f(a[k], b[k]) == f(b[k], a[k]));
        }
    }
    assert(merge_with(a, b, f) =~= merge_with(b, a, f));
}

/// Merging is associative when `f` is.
pub proof fn lemma_merge_associative<K, V>(
    a: Map<K, V>,
    b: Map<K, V>,
    c: Map<K, V>,
    f: spec_fn(V, V) -> V,
)
    requires
        associative(f),
    ensures
        merge_with(merge_with(a, b, f), c, f) == merge_with(a, merge_with(b, c, f), f),
{
    let l = merge_with(merge_with(a, b, f), c, f);
    let r = merge_with(a, merge_with(b, c, f), f);
    assert forall|k: K| #[trigger] l.contains_key(k) implies l[k] == r[k] by {
        if a.contains_key(k) && b.contains_key(k) && c.contains_key(k) {
            assert(f(f(a[k], b[k]), c[k]) == f(a[k], f(b[k], c[k])));
        }
    }
    assert(l =~= r);
}

/// Merging the maps of `s + t` gives the merge of what each part gives: a
/// sequence of maps may be cut anywhere, its parts merged apart, and the
/// results merged.
pub proof fn lemma_fold_split<K, V>(s: Seq<Map<K, V>>, t: Seq<Map<K, V>>, f: spec_fn(V, V) -> V)
    requires
        associative(f),
    ensures
        fold_with(s + t, f) == merge_with(fold_with(s, f), fold_with(t, f), f),
    decreases t.len(),
{
    if t.len() == 0 {
        assert(s + t =~= s);
        lemma_merge_identity(fold_with(s, f), f);
    } else {
        lemma_fold_split(s, t.drop_last(), f);
        assert((s + t).drop_last() =~= s + t.drop_last());
        assert((s + t).last() == t.last());
        lemma_merge_associative(fold_with(s, f), fold_with(t.drop_last(), f), t.last(), f);
    }
}

/// Taking one map out of the middle of a sequence and merging it last gives
/// the same result, when `f` is associative and commutative.
pub proof fn lemma_fold_move_last<K, V>(s: Seq<Map<K, V>>, i: int, f: spec_fn(V, V) -> V)
    requires
        associative(f),
        commutative(f),
        0 <= i < s.len(),
    ensures
        fold_with(s, f) == merge_with(fold_with(s.remove(i), f), s[i], f),
{
    let pre = s.subrange(0, i);
    let post = s.subrange(i + 1, s.len() as int);
    let one = seq![s[i]];
    assert(s =~= pre + (one + post));
    assert(s.remove(i) =~= pre + post);
    lemma_fold_split(pre, one + post, f);
    lemma_fold_split(one, post, f);
    lemma_fold_split(pre, post, f);
    assert(one.drop_last() =~= Seq::<Map<K, V>>::empty());
    assert(fold_with(one.drop_last(), f) == Map::<K, V>::empty());
    assert(one.last() == s[i]);
    lemma_merge_identity(s[i], f);
    assert(fold_with(one, f) == s[i]);
    let a = fold_with(pre, f);
    let b = fold_with(post, f);
    let x = s[i];
    lemma_merge_commutative(x, b, f);
    lemma_merge_associative(a, b, x, f);
}

/// The result of merging a sequence of maps does not depend on their order:
/// any two sequences that hold the same maps, each as many times, give the
/// same result, when `f` is associative and commutative.
pub proof fn lemma_fold_permutation<K, V>(s: Seq<Map<K, V>>, t: Seq<Map<K, V>>, f: spec_fn(V, V) -> V)
    requires
        associative(f),
        commutative(f),
        s.to_multiset() == t.to_multiset(),
    ensures
        fold_with(s, f) == fold_with(t, f),
    decreases s.len(),
{
    broadcast use vstd::seq_lib::group_to_multiset_ensures;

    if s.len() == 0 {
        if t.len() != 0 {
            assert(t.to_multiset().count(t[0]) > 0);
        }
    } else {
        let x = s.last();
        assert(s.to_multiset().count(x) > 0);
        assert(t.contains(x));
        let j = choose|j: int| 0 <= j < t.len() && t[j] == x;
        let t2 = t.remove(j);
        let s2 = s.drop_last();
        assert(s =~= s2.push(x));
        assert(t2.to_multiset() == t.to_multiset().remove(x));
        assert(s2.to_multiset() == s.to_multiset().remove(x));
        lemma_fold_permutation(s2, t2, f);
        lemma_fold_move_last(t, j, f);
    }
}

} // verus!
