//! A killer's record: how many kills, and with which weapons.

use vstd::prelude::*;
use crate::merge::{add_nat, merge_with};
use crate::name_map::NameMap;
use crate::tally::{all_join, can_merge, merge_into, Joinable};
use crate::top::Ranked;

verus! {

/// A map of counts, with each count as a natural number.
pub open spec fn tallies(m: Map<Seq<char>, u64>) -> Map<Seq<char>, nat> {
    m.map_values(|c: u64| c as nat)
}

/// Merging maps of counts, then reading them as natural numbers, is merging
/// their readings with addition, when no sum overflows.
pub proof fn lemma_tallies_merge(a: Map<Seq<char>, u64>, b: Map<Seq<char>, u64>)
    requires
        all_join::<u64>(a, b),
    ensures
        tallies(merge_with(a, b, <u64 as Joinable>::joiner())) == merge_with(
            tallies(a),
            tallies(b),
            add_nat(),
        ),
{
    let l = tallies(merge_with(a, b, <u64 as Joinable>::joiner()));
    let r = merge_with(tallies(a), tallies(b), add_nat());
    assert forall|k: Seq<char>| #[trigger] l.contains_key(k) implies l[k] == r[k] by {
        if a.contains_key(k) && b.contains_key(k) {
            assert(<u64 as Joinable>::joins(a[k], b[k]));
        }
    }
    assert(l =~= r);
}

/// The record of one killer.
///
/// While records are gathered, `weapons_percentage` maps each weapon to the
/// number of kills made with it; in a ranking, it maps each of the killer's
/// leading weapons to its share of the killer's kills, in hundredths of a
/// percent.
pub struct Player {
    /// Total number of kills made by the player.
    pub deaths: u32,
    /// Per weapon: the kills made with it, or their share (see above).
    pub weapons_percentage: NameMap<u64>,
}

/// The view of a killer's record.
#[verifier::ext_equal]
pub struct PlayerView {
    pub deaths: nat,
    pub weapons: Map<Seq<char>, nat>,
}

impl View for Player {
    type V = PlayerView;

    open spec fn view(&self) -> PlayerView {
        PlayerView { deaths: self.deaths as nat, weapons: tallies(self.weapons_percentage@) }
    }
}

/// How two records of the same killer combine: kills add up, and so do the
/// kills made with each weapon.
pub open spec fn join_players() -> spec_fn(PlayerView, PlayerView) -> PlayerView {
    |x: PlayerView, y: PlayerView|
        PlayerView { deaths: x.deaths + y.deaths, weapons: merge_with(x.weapons, y.weapons, add_nat()) }
}

impl Player {
    /// A killer with no kills.
    pub fn new() -> (p: Player)
        ensures
            p@ == (PlayerView { deaths: 0, weapons: Map::empty() }),
    {
        let p = Player { deaths: 0, weapons_percentage: NameMap::new() };
        assert(p@.weapons =~= Map::<Seq<char>, nat>::empty());
        p
    }
}

impl Joinable for Player {
    open spec fn joiner() -> spec_fn(PlayerView, PlayerView) -> PlayerView {
        join_players()
    }

    open spec fn joins(x: PlayerView, y: PlayerView) -> bool {
        &&& x.deaths + y.deaths <= u32::MAX
        &&& forall|k: Seq<char>|
            x.weapons.contains_key(k) && y.weapons.contains_key(k) ==> #[trigger] x.weapons[k]
                + y.weapons[k] <= u64::MAX
    }

    fn joins_with(&self, other: &Player) -> (r: bool) {
        if self.deaths > u32::MAX - other.deaths {
            return false;
        }
        let r = can_merge(&self.weapons_percentage, &other.weapons_percentage);
        let ghost w0 = self.weapons_percentage@;
        let ghost w1 = other.weapons_percentage@;
        assert(r == Self::joins(self@, other@)) by {
            if r {
                assert forall|k: Seq<char>|
                    self@.weapons.contains_key(k) && other@.weapons.contains_key(k) implies
                    #[trigger] self@.weapons[k] + other@.weapons[k] <= u64::MAX by {
                    assert(<u64 as Joinable>::joins(w0[k], w1[k]));
                }
            } else {
                let k = choose|k: Seq<char>|
                    w0.contains_key(k) && w1.contains_key(k) && !#[trigger] <u64 as Joinable>::joins(
                        w0[k],
                        w1[k],
                    );
                assert(self@.weapons[k] + other@.weapons[k] > u64::MAX);
            }
        }
        r
    }

    fn join(self, other: Player) -> (r: Player) {
        let Player { deaths, weapons_percentage: mut weapons } = self;
        let ghost w0 = weapons@;
        let ghost w1 = other.weapons_percentage@;
        assert(all_join::<u64>(w0, w1)) by {
            assert forall|k: Seq<char>| w0.contains_key(k) && w1.contains_key(k) implies
                #[trigger] <u64 as Joinable>::joins(w0[k], w1[k]) by {
                assert(tallies(w0)[k] == w0[k]);
                assert(tallies(w1)[k] == w1[k]);
                assert(self@.weapons[k] + other@.weapons[k] <= u64::MAX);
            }
        }
        merge_into(&mut weapons, other.weapons_percentage);
        proof {
            lemma_tallies_merge(w0, w1);
        }
        let r = Player { deaths: deaths + other.deaths, weapons_percentage: weapons };
        assert(r@ =~= join_players()(self@, other@));
        r
    }
}

impl Ranked for Player {
    /// Killers rank by their kills.
    open spec fn score_of(p: PlayerView) -> int {
        p.deaths as int
    }

    fn score(&self) -> (r: u64) {
        self.deaths as u64
    }
}

} // verus!
