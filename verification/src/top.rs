//! Selecting the leading entries of a ranking: higher scores first, and
//! among equal scores, names in the order of `String`.

use vstd::prelude::*;
use crate::name_map::{entry_names, lemma_suffix_names, lists, NameMap};
use crate::order::{lemma_name_order, name_before, name_less};

verus! {

/// The entry named `n1` with score `s1` ranks before the one named `n2`
/// with score `s2`.
pub open spec fn ranks_before(s1: int, n1: Seq<char>, s2: int, n2: Seq<char>) -> bool {
    s1 > s2 || (s1 == s2 && name_before(n1, n2))
}

/// Ranking is a strict total order on entries with distinct names.
pub proof fn lemma_ranking(
    s1: int,
    n1: Seq<char>,
    s2: int,
    n2: Seq<char>,
    s3: int,
    n3: Seq<char>,
)
    ensures
        !ranks_before(s1, n1, s1, n1),
        ranks_before(s1, n1, s2, n2) && ranks_before(s2, n2, s3, n3) ==> ranks_before(
            s1,
            n1,
            s3,
            n3,
        ),
        n1 != n2 ==> ranks_before(s1, n1, s2, n2) || ranks_before(s2, n2, s1, n1),
{
    lemma_name_order(n1, n2, n3);
    lemma_name_order(n1, n1, n1);
}

/// `sel` is the set of the `n` leading names of the ranking by `scores`
/// (all of them, when there are no more than `n`).
pub open spec fn is_top(sel: Set<Seq<char>>, scores: Map<Seq<char>, int>, n: nat) -> bool {
    &&& sel.finite()
    &&& sel.subset_of(scores.dom())
    &&& sel.len() == if n < scores.len() {
        n
    } else {
        scores.len()
    }
    &&& forall|a: Seq<char>, b: Seq<char>|
        sel.contains(a) && scores.contains_key(b) && !sel.contains(b) ==> ranks_before(
            #[trigger] scores[a],
            a,
            #[trigger] scores[b],
            b,
        )
}

/// The names of a sequence of ranked items.
pub open spec fn item_names<V>(s: Seq<(String, u64, V)>) -> Seq<Seq<char>> {
    s.map_values(|e: (String, u64, V)| e.0@)
}

/// Whether the item named `n1` with score `s1` ranks before the one named
/// `n2` with score `s2`.
pub fn ranks_first(s1: u64, n1: &str, s2: u64, n2: &str) -> (r: bool)
    ensures
        r == ranks_before(s1 as int, n1@, s2 as int, n2@),
{
    s1 > s2 || (s1 == s2 && name_less(n1, n2))
}

/// The `n` leading items of `items` (all of them, when there are no more
/// than `n`), each item a name, its score and a value.
pub fn select_top<V>(items: Vec<(String, u64, V)>, n: usize) -> (r: Vec<(String, u64, V)>)
    requires
        item_names(items@).no_duplicates(),
    ensures
        r@.len() == if n < items@.len() {
            n as int
        } else {
            items@.len() as int
        },
        item_names(r@).no_duplicates(),
        forall|j: int| 0 <= j < r@.len() ==> items@.contains(#[trigger] r@[j]),
        forall|j: int, i: int|
            0 <= j < r@.len() && 0 <= i < items@.len() && !item_names(r@).contains(
                #[trigger] items@[i].0@,
            ) ==> ranks_before(
                #[trigger] r@[j].1 as int,
                r@[j].0@,
                items@[i].1 as int,
                items@[i].0@,
            ),
{
    let ghost all = items@;
    let mut rest = items;
    let mut chosen: Vec<(String, u64, V)> = Vec::new();
    while chosen.len() < n && rest.len() > 0
        invariant
            rest@.len() + chosen@.len() == all.len(),
            chosen@.len() <= n,
            item_names(rest@).no_duplicates(),
            item_names(chosen@).no_duplicates(),
            forall|j: int, i: int|
                0 <= j < chosen@.len() && 0 <= i < rest@.len() ==> #[trigger] chosen@[j].0@
                    != #[trigger] rest@[i].0@,
            forall|j: int| 0 <= j < chosen@.len() ==> all.contains(#[trigger] chosen@[j]),
            forall|i: int| 0 <= i < rest@.len() ==> all.contains(#[trigger] rest@[i]),
            forall|k: int|
                0 <= k < all.len() ==> chosen@.contains(#[trigger] all[k]) || rest@.contains(
                    all[k],
                ),
            forall|j: int, i: int|
                0 <= j < chosen@.len() && 0 <= i < rest@.len() ==> ranks_before(
                    #[trigger] chosen@[j].1 as int,
                    chosen@[j].0@,
                    #[trigger] rest@[i].1 as int,
                    rest@[i].0@,
                ),
        decreases rest.len(),
    {
        let mut b: usize = 0;
        let mut t: usize = 1;
        proof {
            lemma_ranking(
                rest@[0].1 as int,
                rest@[0].0@,
                rest@[0].1 as int,
                rest@[0].0@,
                rest@[0].1 as int,
                rest@[0].0@,
            );
        }
        while t < rest.len()
            invariant
                0 < rest@.len(),
                b < t <= rest@.len(),
                forall|u: int|
                    0 <= u < t ==> !ranks_before(
                        #[trigger] rest@[u].1 as int,
                        rest@[u].0@,
                        rest@[b as int].1 as int,
                        rest@[b as int].0@,
                    ),
            decreases rest.len() - t,
        {
            proof {
                lemma_ranking(
                    rest@[t as int].1 as int,
                    rest@[t as int].0@,
                    rest@[t as int].1 as int,
                    rest@[t as int].0@,
                    rest@[t as int].1 as int,
                    rest@[t as int].0@,
                );
            }
            if ranks_first(rest[t].1, rest[t].0.as_str(), rest[b].1, rest[b].0.as_str()) {
                assert forall|u: int| 0 <= u < t implies !ranks_before(
                    #[trigger] rest@[u].1 as int,
                    rest@[u].0@,
                    rest@[t as int].1 as int,
                    rest@[t as int].0@,
                ) by {
                    lemma_ranking(
                        rest@[u].1 as int,
                        rest@[u].0@,
                        rest@[t as int].1 as int,
                        rest@[t as int].0@,
                        rest@[b as int].1 as int,
                        rest@[b as int].0@,
                    );
                }
                b = t;
            }
            t = t + 1;
        }
        let ghost old_rest = rest@;
        let ghost old_chosen = chosen@;
        let best = rest.remove(b);
        assert forall|i: int| 0 <= i < rest@.len() implies ranks_before(
            best.1 as int,
            best.0@,
            #[trigger] rest@[i].1 as int,
            rest@[i].0@,
        ) by {
            let u = if i < b {
                i
            } else {
                i + 1
            };
            assert(rest@[i] == old_rest[u]);
            assert(item_names(old_rest)[u] != item_names(old_rest)[b as int]);
            lemma_ranking(
                best.1 as int,
                best.0@,
                old_rest[u].1 as int,
                old_rest[u].0@,
                best.1 as int,
                best.0@,
            );
        }
        chosen.push(best);
        assert forall|k: int| 0 <= k < all.len() implies chosen@.contains(#[trigger] all[k])
            || rest@.contains(all[k]) by {
            if old_chosen.contains(all[k]) {
                let j = choose|j: int| 0 <= j < old_chosen.len() && old_chosen[j] == all[k];
                assert(chosen@[j] == all[k]);
            } else {
                let u = choose|u: int| 0 <= u < old_rest.len() && old_rest[u] == all[k];
                if u < b {
                    assert(rest@[u] == all[k]);
                } else if u == b {
                    assert(chosen@[old_chosen.len() as int] == all[k]);
                } else {
                    assert(rest@[u - 1] == all[k]);
                }
            }
        }
        assert forall|i: int| 0 <= i < rest@.len() implies all.contains(#[trigger] rest@[i]) by {
            let u = if i < b {
                i
            } else {
                i + 1
            };
            assert(rest@[i] == old_rest[u]);
        }
        assert forall|j: int| 0 <= j < chosen@.len() implies all.contains(#[trigger] chosen@[j]) by {
            if j < old_chosen.len() {
                assert(chosen@[j] == old_chosen[j]);
            } else {
                assert(chosen@[j] == old_rest[b as int]);
            }
        }
        assert forall|x: int, y: int|
            0 <= x < rest@.len() && 0 <= y < rest@.len() && x != y implies item_names(rest@)[x]
            != item_names(rest@)[y] by {
            let ux = if x < b {
                x
            } else {
                x + 1
            };
            let uy = if y < b {
                y
            } else {
                y + 1
            };
            assert(item_names(rest@)[x] == item_names(old_rest)[ux]);
            assert(item_names(rest@)[y] == item_names(old_rest)[uy]);
        }
        assert forall|j: int, i: int|
            0 <= j < chosen@.len() && 0 <= i < rest@.len() implies #[trigger] chosen@[j].0@
            != #[trigger] rest@[i].0@ by {
            let u = if i < b {
                i
            } else {
                i + 1
            };
            assert(rest@[i] == old_rest[u]);
            if j == old_chosen.len() {
                assert(item_names(old_rest)[u] != item_names(old_rest)[b as int]);
            } else {
                assert(chosen@[j] == old_chosen[j]);
            }
        }
        assert forall|x: int, y: int|
            0 <= x < chosen@.len() && 0 <= y < chosen@.len() && x != y implies item_names(
                chosen@,
            )[x] != item_names(chosen@)[y] by {
            if x < old_chosen.len() && y < old_chosen.len() {
                assert(item_names(old_chosen)[x] != item_names(old_chosen)[y]);
            } else if x < old_chosen.len() {
                assert(chosen@[x] == old_chosen[x]);
                assert(old_chosen[x].0@ != old_rest[b as int].0@);
            } else {
                assert(chosen@[y] == old_chosen[y]);
                assert(old_chosen[y].0@ != old_rest[b as int].0@);
            }
        }
        assert forall|j: int, i: int|
            0 <= j < chosen@.len() && 0 <= i < rest@.len() implies ranks_before(
            #[trigger] chosen@[j].1 as int,
            chosen@[j].0@,
            #[trigger] rest@[i].1 as int,
            rest@[i].0@,
        ) by {
            let u = if i < b {
                i
            } else {
                i + 1
            };
            assert(rest@[i] == old_rest[u]);
            if j < old_chosen.len() {
                assert(chosen@[j] == old_chosen[j]);
            }
        }
    }
    assert forall|j: int, i: int|
        0 <= j < chosen@.len() && 0 <= i < all.len() && !item_names(chosen@).contains(
            #[trigger] all[i].0@,
        ) implies ranks_before(
        #[trigger] chosen@[j].1 as int,
        chosen@[j].0@,
        all[i].1 as int,
        all[i].0@,
    ) by {
        if chosen@.contains(all[i]) {
            let x = choose|x: int| 0 <= x < chosen@.len() && chosen@[x] == all[i];
            assert(item_names(chosen@)[x] == all[i].0@);
        } else {
            assert(rest@.contains(all[i]));
            let u = choose|u: int| 0 <= u < rest@.len() && rest@[u] == all[i];
            assert(ranks_before(
                chosen@[j].1 as int,
                chosen@[j].0@,
                rest@[u].1 as int,
                rest@[u].0@,
            ));
        }
    }
    chosen
}

/// A value with a score to be ranked by.
pub trait Ranked: View + Sized {
    /// The score of a view.
    spec fn score_of(v: Self::V) -> int;

    /// The score of the value.
    fn score(&self) -> (r: u64)
        ensures
            r as int == Self::score_of(self@),
    ;
}

/// The scores of the values of a map.
pub open spec fn scores<V: Ranked>(m: Map<Seq<char>, V::V>) -> Map<Seq<char>, int> {
    m.map_values(|v: V::V| V::score_of(v))
}

/// The items rank the map `m`: each name once, with its value and score,
/// and no other name.
pub open spec fn ranks<V: Ranked>(items: Seq<(String, u64, V)>, m: Map<Seq<char>, V::V>) -> bool {
    &&& item_names(items).no_duplicates()
    &&& item_names(items).to_set() == m.dom()
    &&& forall|i: int|
        0 <= i < items.len() ==> {
            &&& m[#[trigger] items[i].0@] == items[i].2@
            &&& items[i].1 as int == V::score_of(items[i].2@)
        }
}

fn rank_items<V: Ranked>(m: NameMap<V>) -> (items: Vec<(String, u64, V)>)
    ensures
        ranks(items@, m@),
        items@.len() == m@.len(),
        m@.dom().finite(),
{
    let ghost mv = m@;
    let mut rest = m.into_entries();
    let ghost all = rest@;
    let mut items: Vec<(String, u64, V)> = Vec::new();
    assert(all.subrange(all.len() as int, all.len() as int) =~= Seq::<(String, V)>::empty());
    assert(entry_names(Seq::<(String, V)>::empty()).to_set() =~= Set::<Seq<char>>::empty());
    assert(item_names(items@).to_set() =~= Set::<Seq<char>>::empty());
    while rest.len() > 0
        invariant
            lists(all, mv),
            rest@.len() <= all.len(),
            rest@ == all.subrange(0, rest@.len() as int),
            items@.len() + rest@.len() == all.len(),
            item_names(items@).no_duplicates(),
            item_names(items@).to_set() == entry_names(
                all.subrange(rest@.len() as int, all.len() as int),
            ).to_set(),
            forall|i: int|
                0 <= i < items@.len() ==> {
                    &&& mv[#[trigger] items@[i].0@] == items@[i].2@
                    &&& items@[i].1 as int == V::score_of(items@[i].2@)
                },
        decreases rest.len(),
    {
        let ghost r = rest@.len() - 1;
        proof {
            lemma_suffix_names(all, r);
        }
        assert(rest@[r] == all[r]);
        let (name, v) = rest.pop().unwrap();
        assert(mv[all[r].0@] == all[r].1@);
        let score = v.score();
        let ghost old_items = items@;
        items.push((name, score, v));
        assert(item_names(items@) =~= item_names(old_items).push(all[r].0@));
        proof {
            item_names(old_items).lemma_push_to_set_commute(all[r].0@);
        }
        assert forall|x: int, y: int|
            0 <= x < items@.len() && 0 <= y < items@.len() && x != y implies item_names(items@)[x]
            != item_names(items@)[y] by {
            if x < old_items.len() && y < old_items.len() {
                assert(item_names(old_items)[x] != item_names(old_items)[y]);
            } else if x < old_items.len() {
                assert(item_names(old_items).to_set().contains(item_names(old_items)[x]));
            } else {
                assert(item_names(old_items).to_set().contains(item_names(old_items)[y]));
            }
        }
    }
    assert(all.subrange(0, all.len() as int) =~= all);
    items
}

/// The `n` leading entries of `m` by score (all of them, when there are no
/// more than `n`), each with its value.
pub fn top_of<V: Ranked>(m: NameMap<V>, n: usize) -> (r: NameMap<V>)
    ensures
        is_top(r@.dom(), scores::<V>(m@), n as nat),
        r@ == m@.restrict(r@.dom()),
{
    let ghost mv = m@;
    let items = rank_items(m);
    let ghost all = items@;
    let chosen = select_top(items, n);
    let ghost sel = chosen@;
    let mut rest = chosen;
    let mut result: NameMap<V> = NameMap::new();
    assert(sel.subrange(sel.len() as int, sel.len() as int) =~= Seq::<(String, u64, V)>::empty());
    assert(item_names(Seq::<(String, u64, V)>::empty()).to_set() =~= Set::<Seq<char>>::empty());
    assert(result@ =~= mv.restrict(Set::<Seq<char>>::empty()));
    while rest.len() > 0
        invariant
            ranks(all, mv),
            item_names(sel).no_duplicates(),
            forall|j: int| 0 <= j < sel.len() ==> all.contains(#[trigger] sel[j]),
            rest@.len() <= sel.len(),
            rest@ == sel.subrange(0, rest@.len() as int),
            result@ == mv.restrict(
                item_names(sel.subrange(rest@.len() as int, sel.len() as int)).to_set(),
            ),
        decreases rest.len(),
    {
        let ghost r = rest@.len() - 1;
        let ghost after = item_names(sel.subrange(r, sel.len() as int));
        let ghost before = item_names(sel.subrange(r + 1, sel.len() as int));
        assert(after =~= seq![sel[r].0@] + before);
        assert(after.to_set() =~= before.to_set().insert(sel[r].0@)) by {
            assert forall|y: Seq<char>| after.contains(y) <==> (before.contains(y) || y == sel[r].0@) by {
                if after.contains(y) {
                    let j = choose|j: int| 0 <= j < after.len() && #[trigger] after[j] == y;
                    if j > 0 {
                        assert(before[j - 1] == y);
                    }
                }
                if before.contains(y) {
                    let j = choose|j: int| 0 <= j < before.len() && #[trigger] before[j] == y;
                    assert(after[j + 1] == y);
                }
                if y == sel[r].0@ {
                    assert(after[0] == y);
                }
            }
        }
        assert(rest@[r] == sel[r]);
        let (name, _score, v) = rest.pop().unwrap();
        assert(all.contains(sel[r]));
        let ghost i = choose|i: int| 0 <= i < all.len() && all[i] == sel[r];
        assert(mv[all[i].0@] == all[i].2@);
        assert(item_names(all)[i] == name@);
        assert(item_names(all).to_set().contains(name@));
        result.insert(name, v);
        assert(result@ =~= mv.restrict(after.to_set()));
    }
    assert(sel.subrange(0, sel.len() as int) =~= sel);
    let ghost dom = item_names(sel).to_set();
    assert(result@ =~= mv.restrict(dom));
    proof {
        item_names(sel).unique_seq_to_set();
        item_names(all).unique_seq_to_set();
        assert(dom.subset_of(mv.dom())) by {
            assert forall|k: Seq<char>| dom.contains(k) implies mv.dom().contains(k) by {
                let j = choose|j: int| 0 <= j < sel.len() && #[trigger] item_names(sel)[j] == k;
                assert(all.contains(sel[j]));
                let i = choose|i: int| 0 <= i < all.len() && all[i] == sel[j];
                assert(item_names(all)[i] == k);
            }
        }
        assert(result@.dom() =~= dom);
        assert(mv.len() == all.len());
        let sc = scores::<V>(mv);
        assert forall|a: Seq<char>, b: Seq<char>|
            dom.contains(a) && sc.contains_key(b) && !dom.contains(b) implies ranks_before(
            #[trigger] sc[a],
            a,
            #[trigger] sc[b],
            b,
        ) by {
            let j = choose|j: int| 0 <= j < sel.len() && #[trigger] item_names(sel)[j] == a;
            assert(all.contains(sel[j]));
            let ia = choose|ia: int| 0 <= ia < all.len() && all[ia] == sel[j];
            assert(item_names(all).to_set().contains(b));
            let i = choose|i: int| 0 <= i < all.len() && #[trigger] item_names(all)[i] == b;
            assert(all[i].0@ == b);
            assert(mv[all[ia].0@] == all[ia].2@);
            assert(mv[all[i].0@] == all[i].2@);
            assert(ranks_before(sel[j].1 as int, sel[j].0@, all[i].1 as int, all[i].0@));
        }
        assert(dom.finite());
        assert(dom.len() == sel.len());
        assert(sc.dom() =~= mv.dom());
        assert(sc.len() == all.len());
        assert(is_top(dom, sc, n as nat));
    }
    result
}

impl Ranked for u64 {
    open spec fn score_of(v: u64) -> int {
        v as int
    }

    fn score(&self) -> (r: u64) {
        *self
    }
}

} // verus!
