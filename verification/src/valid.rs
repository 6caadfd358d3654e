//! What every gathered record satisfies: a killer's kills are the sum of
//! its kills per weapon, each at least one; a weapon's kills with a known
//! distance are no more than its kills, and with none of them its distance
//! total is zero.

use vstd::prelude::*;
use crate::merge::{add_nat, lemma_merge_identity, merge_with};
use crate::player::{join_players, PlayerView};
use crate::weapon::{join_stats, WeaponStatsView};

verus! {

/// The sum of the counts of `m`.
pub open spec fn count_sum(m: Map<Seq<char>, nat>) -> nat
    decreases m.len(),
    when m.dom().finite()
{
    if m.len() == 0 {
        0
    } else {
        let k = m.dom().choose();
        proof {
            if !m.dom().contains(k) {
                assert(m.dom() =~= Set::<Seq<char>>::empty());
            }
        }
        m[k] + count_sum(m.remove(k))
    }
}

/// The sum is any one count plus the sum of the others.
pub proof fn lemma_count_sum_remove(m: Map<Seq<char>, nat>, k: Seq<char>)
    requires
        m.dom().finite(),
        m.contains_key(k),
    ensures
        count_sum(m) == m[k] + count_sum(m.remove(k)),
    decreases m.len(),
{
    let c = m.dom().choose();
    assert(m.len() > 0) by {
        assert(m.dom().contains(k));
    }
    if c != k {
        assert(m.dom().contains(c)) by {
            assert(m.dom().contains(k));
        }
        lemma_count_sum_remove(m.remove(c), k);
        lemma_count_sum_remove(m.remove(k), c);
        assert(m.remove(c).remove(k) =~= m.remove(k).remove(c));
    }
}

/// Merging counts adds their sums.
pub proof fn lemma_count_sum_merge(a: Map<Seq<char>, nat>, b: Map<Seq<char>, nat>)
    requires
        a.dom().finite(),
        b.dom().finite(),
    ensures
        merge_with(a, b, add_nat()).dom().finite(),
        count_sum(merge_with(a, b, add_nat())) == count_sum(a) + count_sum(b),
    decreases b.len(),
{
    let m = merge_with(a, b, add_nat());
    assert(m.dom() =~= a.dom().union(b.dom()));
    if b.len() == 0 {
        assert(b =~= Map::<Seq<char>, nat>::empty());
        lemma_merge_identity(a, add_nat());
    } else {
        let k = b.dom().choose();
        assert(b.contains_key(k));
        let b1 = b.remove(k);
        let m1 = merge_with(a, b1, add_nat());
        lemma_count_sum_merge(a, b1);
        lemma_count_sum_remove(b, k);
        lemma_count_sum_remove(m, k);
        if a.contains_key(k) {
            lemma_count_sum_remove(m1, k);
            assert(m.remove(k) =~= m1.remove(k));
        } else {
            assert(m.remove(k) =~= m1);
        }
    }
}

/// A killer's record: at least one kill, each weapon used at least once,
/// and the kills per weapon add up to the kills.
pub open spec fn killer_valid(p: PlayerView) -> bool {
    &&& p.deaths >= 1
    &&& p.weapons.dom().finite()
    &&& forall|w: Seq<char>| #[trigger] p.weapons.contains_key(w) ==> p.weapons[w] >= 1
    &&& count_sum(p.weapons) == p.deaths
}

/// Every killer record of `m` is valid.
pub open spec fn killers_valid(m: Map<Seq<char>, PlayerView>) -> bool {
    forall|k: Seq<char>| #[trigger] m.contains_key(k) ==> killer_valid(m[k])
}

/// A weapon's record: no more kills with a known distance than kills, and
/// no distance without such a kill.
pub open spec fn stats_valid(s: WeaponStatsView) -> bool {
    &&& s.distance_count <= s.deaths
    &&& s.distance_count == 0 ==> s.distance_total == 0
}

/// Every weapon record of `m` is valid.
pub open spec fn weapons_valid(m: Map<Seq<char>, WeaponStatsView>) -> bool {
    forall|k: Seq<char>| #[trigger] m.contains_key(k) ==> stats_valid(m[k])
}

/// Joining two valid records of a killer gives a valid record.
pub proof fn lemma_join_players_valid(x: PlayerView, y: PlayerView)
    requires
        killer_valid(x),
        killer_valid(y),
    ensures
        killer_valid(join_players()(x, y)),
{
    lemma_count_sum_merge(x.weapons, y.weapons);
}

/// Merging valid killer records gives valid records.
pub proof fn lemma_merge_killers_valid(a: Map<Seq<char>, PlayerView>, b: Map<Seq<char>, PlayerView>)
    requires
        killers_valid(a),
        killers_valid(b),
    ensures
        killers_valid(merge_with(a, b, join_players())),
{
    assert forall|k: Seq<char>| #[trigger] merge_with(a, b, join_players()).contains_key(k) implies killer_valid(
        merge_with(a, b, join_players())[k],
    ) by {
        if a.contains_key(k) && b.contains_key(k) {
            lemma_join_players_valid(a[k], b[k]);
        }
    }
}

/// Merging valid weapon records gives valid records.
pub proof fn lemma_merge_weapons_valid(
    a: Map<Seq<char>, WeaponStatsView>,
    b: Map<Seq<char>, WeaponStatsView>,
)
    requires
        weapons_valid(a),
        weapons_valid(b),
    ensures
        weapons_valid(merge_with(a, b, join_stats())),
{
    assert forall|k: Seq<char>| #[trigger] merge_with(a, b, join_stats()).contains_key(k) implies stats_valid(
        merge_with(a, b, join_stats())[k],
    ) by {
        if a.contains_key(k) && b.contains_key(k) {
            assert(stats_valid(a[k]) && stats_valid(b[k]));
        }
    }
}

} // verus!
