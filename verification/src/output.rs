//! The result of processing a set of data files.

use vstd::prelude::*;
use crate::name_map::NameMap;
use crate::player::{Player, PlayerView};
use crate::top::{is_top, scores};
use crate::utils::{
    get_top_killers, get_top_weapons, process_weapon_stats, ranked_player,
    summaries, total_deaths, uniform_shares,
};
use crate::weapon::{Weapon, WeaponStats, WeaponStatsView};

verus! {

/// The student number that the output carries.
pub const PADRON: u32 = 107585;

/// How many killers and how many weapons the output ranks.
pub const TOP_COUNT: usize = 10;

/// `top_killers` and `top_weapons` rank the gathered records `killers` and
/// `weapons`: the [`TOP_COUNT`] killers with the most kills, each with the
/// shares of its leading weapons, and the [`TOP_COUNT`] weapons with the
/// largest shares of all kills, with their summaries.
pub open spec fn ranks_records(
    killers: Map<Seq<char>, PlayerView>,
    weapons: Map<Seq<char>, WeaponStatsView>,
    top_killers: Map<Seq<char>, PlayerView>,
    top_weapons: Map<Seq<char>, Weapon>,
) -> bool {
    &&& is_top(top_killers.dom(), scores::<Player>(killers), TOP_COUNT as nat)
    &&& forall|k: Seq<char>| #[trigger]
        top_killers.contains_key(k) ==> ranked_player(killers[k], top_killers[k])
    &&& is_top(top_weapons.dom(), scores::<Weapon>(summaries(weapons)), TOP_COUNT as nat)
    &&& top_weapons == summaries(weapons).restrict(top_weapons.dom())
}

/// The processed information.
pub struct Output {
    pub padron: u32,
    /// The killers with the most kills.
    pub top_killers: NameMap<Player>,
    /// The weapons with the largest share of kills.
    pub top_weapons: NameMap<Weapon>,
}

impl Output {
    /// The output of gathered records: the leading killers, each with the
    /// shares of its leading weapons, and the leading weapons.
    pub fn from_records(killers: NameMap<Player>, weapons_stats: NameMap<WeaponStats>) -> (o:
        Output)
        requires
            total_deaths(weapons_stats@) <= u32::MAX,
        ensures
            o.padron == PADRON,
            ranks_records(killers@, weapons_stats@, o.top_killers@, o.top_weapons@),
    {
        let ghost sm = weapons_stats@;
        let weapons = process_weapon_stats(weapons_stats);
        assert(uniform_shares(weapons@)) by {
            if total_deaths(sm) == 0 {
                assert forall|k: Seq<char>| weapons@.contains_key(k) implies (
                #[trigger] weapons@[k]).deaths_percentage is None by {}
            } else {
                assert forall|k: Seq<char>| weapons@.contains_key(k) implies (
                #[trigger] weapons@[k]).deaths_percentage is Some by {}
            }
        }
        Output {
            padron: PADRON,
            top_killers: get_top_killers(killers, TOP_COUNT),
            top_weapons: get_top_weapons(weapons, TOP_COUNT),
        }
    }

    /// The output when no data could be read.
    pub fn empty() -> (o: Output)
        ensures
            o.padron == PADRON,
            o.top_killers@ == Map::<Seq<char>, PlayerView>::empty(),
            o.top_weapons@ == Map::<Seq<char>, Weapon>::empty(),
    {
        Output { padron: PADRON, top_killers: NameMap::new(), top_weapons: NameMap::new() }
    }
}

} // verus!
