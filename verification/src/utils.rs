//! Gathering kill records line by line, merging gathered records, and
//! summarising them.

use vstd::prelude::*;
use crate::fields::{field_views, split_commas, split_fields};
use crate::merge::merge_with;
use crate::order::name_before;
use crate::name_map::{entry_names, lemma_lists_drop_last, lemma_suffix_names, lists, NameMap};
use crate::player::{join_players, Player, PlayerView};
use crate::tally::{all_join, merge_into, Joinable};
use crate::top::{is_top, scores, top_of};
use crate::player::tallies;
use crate::weapon::{join_stats, Weapon, WeaponStats, WeaponStatsView};

verus! {

/// What one line, split into `fields`, tells about its killer: the killer
/// (the second field, when it is not empty) has one kill, made with the
/// weapon named in the first field.
pub open spec fn killer_record(fields: Seq<Seq<char>>) -> Map<Seq<char>, PlayerView> {
    if fields.len() > 1 && fields[1].len() > 0 {
        map![fields[1] => PlayerView { deaths: 1, weapons: map![fields[0] => 1nat] }]
    } else {
        Map::empty()
    }
}

/// What one line, split into `fields`, tells about its weapon: the weapon
/// named in the first field has one kill, and one known distance when
/// `distance` is given.
pub open spec fn weapon_record(fields: Seq<Seq<char>>, distance: Option<u64>) -> Map<
    Seq<char>,
    WeaponStatsView,
> {
    if fields.len() > 0 {
        map![fields[0] => match distance {
            Some(d) => WeaponStatsView { deaths: 1, distance_total: d as nat, distance_count: 1 },
            None => WeaponStatsView { deaths: 1, distance_total: 0, distance_count: 0 },
        }]
    } else {
        Map::empty()
    }
}

/// Adds the killer record of a line, split into `fields`, to `killers`.
pub fn process_killer(fields: &Vec<&str>, killers: &mut NameMap<Player>)
    requires
        all_join::<Player>(old(killers)@, killer_record(field_views(fields@))),
    ensures
        final(killers)@ == merge_with(
            old(killers)@,
            killer_record(field_views(fields@)),
            join_players(),
        ),
{
    let ghost fv = field_views(fields@);
    let ghost k0 = killers@;
    if fields.len() > 1 && !fields[1].is_empty() {
        let name = fields[1];
        let weapon = fields[0];
        assert(name@ == fv[1] && weapon@ == fv[0]);
        let ghost rec = killer_record(fv);
        assert(rec.contains_key(name@));
        let mut player = match killers.remove(name) {
            Some(p) => p,
            None => Player::new(),
        };
        let ghost p0 = player@;
        let ghost wm = player.weapons_percentage@;
        let count = match player.weapons_percentage.remove(weapon) {
            Some(c) => c,
            None => 0,
        };
        assert(p0.weapons.contains_key(weapon@) ==> p0.weapons[weapon@] == count && wm[weapon@] == count);
        assert(!p0.weapons.contains_key(weapon@) ==> count == 0);
        proof {
            if k0.contains_key(name@) {
                assert(<Player as Joinable>::joins(k0[name@], rec[name@]));
                assert(rec[name@].weapons.contains_key(weapon@));
                if p0.weapons.contains_key(weapon@) {
                    assert(p0.weapons[weapon@] + rec[name@].weapons[weapon@] <= u64::MAX);
                }
            }
        }
        player.weapons_percentage.insert(weapon.to_owned(), count + 1);
        player.deaths = player.deaths + 1;
        assert(player@.weapons =~= merge_with(p0.weapons, rec[name@].weapons, crate::merge::add_nat()));
        assert(player@ =~= if k0.contains_key(name@) {
            join_players()(k0[name@], rec[name@])
        } else {
            rec[name@]
        });
        killers.insert(name.to_owned(), player);
        assert(killers@ =~= merge_with(k0, rec, join_players()));
    } else {
        assert(killer_record(fv) =~= Map::<Seq<char>, PlayerView>::empty());
        assert(killers@ =~= merge_with(k0, killer_record(fv), join_players()));
    }
}

/// Adds the weapon record of a line, split into `fields`, to `weapons`.
///
/// `distance` is the distance between killer and victim, in hundredths,
/// when the positions of both are known (fields 3 and 4 for the killer,
/// 10 and 11 for the victim).
pub fn process_weapon(
    fields: &Vec<&str>,
    distance: Option<u64>,
    weapons: &mut NameMap<WeaponStats>,
)
    requires
        all_join::<WeaponStats>(old(weapons)@, weapon_record(field_views(fields@), distance)),
    ensures
        final(weapons)@ == merge_with(
            old(weapons)@,
            weapon_record(field_views(fields@), distance),
            join_stats(),
        ),
{
    let ghost fv = field_views(fields@);
    let ghost w0 = weapons@;
    if fields.len() > 0 {
        let name = fields[0];
        assert(name@ == fv[0]);
        let ghost rec = weapon_record(fv, distance);
        assert(rec.contains_key(name@));
        let mut stats = match weapons.remove(name) {
            Some(s) => s,
            None => WeaponStats::new(),
        };
        proof {
            if w0.contains_key(name@) {
                assert(<WeaponStats as Joinable>::joins(w0[name@], rec[name@]));
            }
        }
        stats.deaths = stats.deaths + 1;
        match distance {
            Some(d) => {
                stats.distance_total = stats.distance_total + d;
                stats.distance_count = stats.distance_count + 1;
            },
            None => {},
        }
        weapons.insert(name.to_owned(), stats);
        assert(weapons@ =~= merge_with(w0, rec, join_stats()));
    } else {
        assert(weapon_record(fv, distance) =~= Map::<Seq<char>, WeaponStatsView>::empty());
        assert(weapons@ =~= merge_with(w0, weapon_record(fv, distance), join_stats()));
    }
}

/// Adds what one line of a data file tells to `killers` and `weapons`.
///
/// `distance` is as for [`process_weapon`], for the fields of this line.
pub fn process_line(
    line: &str,
    distance: Option<u64>,
    killers: &mut NameMap<Player>,
    weapons: &mut NameMap<WeaponStats>,
)
    requires
        all_join::<Player>(old(killers)@, killer_record(split_commas(line@))),
        all_join::<WeaponStats>(old(weapons)@, weapon_record(split_commas(line@), distance)),
    ensures
        final(killers)@ == merge_with(
            old(killers)@,
            killer_record(split_commas(line@)),
            join_players(),
        ),
        final(weapons)@ == merge_with(
            old(weapons)@,
            weapon_record(split_commas(line@), distance),
            join_stats(),
        ),
{
    let fields = split_fields(line);
    process_killer(&fields, killers);
    process_weapon(&fields, distance, weapons);
}

/// Merges the killer records `killers2` into `killers1`.
pub fn merge_killers(killers1: &mut NameMap<Player>, killers2: NameMap<Player>)
    requires
        all_join::<Player>(old(killers1)@, killers2@),
    ensures
        final(killers1)@ == merge_with(old(killers1)@, killers2@, join_players()),
{
    merge_into(killers1, killers2);
}

/// Merges the weapon records `weapons2` into `weapons1`.
pub fn merge_weapons_stats(weapons1: &mut NameMap<WeaponStats>, weapons2: NameMap<WeaponStats>)
    requires
        all_join::<WeaponStats>(old(weapons1)@, weapons2@),
    ensures
        final(weapons1)@ == merge_with(old(weapons1)@, weapons2@, join_stats()),
{
    merge_into(weapons1, weapons2);
}

/// Merges two pairs of killer and weapon records.
pub fn merge(
    first: (NameMap<Player>, NameMap<WeaponStats>),
    second: (NameMap<Player>, NameMap<WeaponStats>),
) -> (r: (NameMap<Player>, NameMap<WeaponStats>))
    requires
        all_join::<Player>(first.0@, second.0@),
        all_join::<WeaponStats>(first.1@, second.1@),
    ensures
        r.0@ == merge_with(first.0@, second.0@, join_players()),
        r.1@ == merge_with(first.1@, second.1@, join_stats()),
{
    let (mut killers1, mut weapons1) = first;
    let (killers2, weapons2) = second;
    merge_killers(&mut killers1, killers2);
    merge_weapons_stats(&mut weapons1, weapons2);
    (killers1, weapons1)
}

/// The kills made with all the weapons of `m`.
pub open spec fn total_deaths(m: Map<Seq<char>, WeaponStatsView>) -> nat
    decreases m.len(),
    when m.dom().finite()
{
    if m.len() == 0 {
        0
    } else {
        let k = m.dom().choose();
        proof {
            if !m.dom().contains(k) {
                assert(m.dom() =~= Set::<Seq<char>>::empty());
            }
        }
        m[k].deaths + total_deaths(m.remove(k))
    }
}

/// The total is the kills of any one weapon plus those of all the others.
pub proof fn lemma_total_remove(m: Map<Seq<char>, WeaponStatsView>, k: Seq<char>)
    requires
        m.dom().finite(),
        m.contains_key(k),
    ensures
        total_deaths(m) == m[k].deaths + total_deaths(m.remove(k)),
    decreases m.len(),
{
    let c = m.dom().choose();
    assert(m.len() > 0) by {
        assert(m.dom().contains(k));
    }
    if c != k {
        assert(m.dom().contains(c)) by {
            assert(m.dom().contains(k));
        }
        lemma_total_remove(m.remove(c), k);
        lemma_total_remove(m.remove(k), c);
        assert(m.remove(c).remove(k) =~= m.remove(k).remove(c));
    }
}

/// The kills of the weapons of a sequence of entries.
pub open spec fn seq_deaths(s: Seq<(String, WeaponStats)>) -> nat
    decreases s.len(),
{
    if s.len() == 0 {
        0
    } else {
        seq_deaths(s.drop_last()) + s.last().1.deaths as nat
    }
}

proof fn lemma_seq_deaths_total(s: Seq<(String, WeaponStats)>, m: Map<Seq<char>, WeaponStatsView>)
    requires
        lists(s, m),
    ensures
        seq_deaths(s) == total_deaths(m),
        m.dom().finite(),
    decreases s.len(),
{
    if s.len() == 0 {
        assert(m.dom() =~= Set::<Seq<char>>::empty());
    } else {
        lemma_lists_drop_last(s, m);
        lemma_seq_deaths_total(s.drop_last(), m.remove(s.last().0@));
        assert(m.dom() =~= m.remove(s.last().0@).dom().insert(s.last().0@));
        lemma_total_remove(m, s.last().0@);
    }
}

proof fn lemma_seq_deaths_prefix(s: Seq<(String, WeaponStats)>, i: int)
    requires
        0 <= i <= s.len(),
    ensures
        seq_deaths(s.take(i)) <= seq_deaths(s),
        i < s.len() ==> seq_deaths(s.take(i + 1)) == seq_deaths(s.take(i)) + s[i].1.deaths,
        i == s.len() ==> seq_deaths(s.take(i)) == seq_deaths(s),
    decreases s.len() - i,
{
    if i < s.len() {
        assert(s.take(i + 1).drop_last() =~= s.take(i));
        lemma_seq_deaths_prefix(s, i + 1);
    } else {
        assert(s.take(i) =~= s);
    }
}

/// `a / b` rounded half up, for `b > 0`.
pub open spec fn round_div(a: nat, b: nat) -> nat {
    (2 * a + b) / (2 * b)
}

/// A quotient rounded half up is at most any bound of the exact quotient.
pub proof fn lemma_round_div_le(a: nat, b: nat, c: nat)
    by (nonlinear_arith)
    requires
        b > 0,
        a <= c * b,
    ensures
        round_div(a, b) <= c,
{
}

/// The summary of a weapon whose gathered record is `s`, when all weapons
/// together made `total` kills.
pub open spec fn summarize(s: WeaponStatsView, total: nat) -> Weapon {
    Weapon {
        deaths_percentage: if total == 0 {
            None
        } else {
            Some(round_div(10000 * s.deaths, total) as u64)
        },
        average_distance: if s.distance_count == 0 {
            None
        } else {
            Some(round_div(s.distance_total, s.distance_count) as u64)
        },
    }
}

/// Whether the kills of all the weapons of `weapons_stats` add up to no
/// more than `u32::MAX`, as [`process_weapon_stats`] requires.
pub fn kills_fit(weapons_stats: &NameMap<WeaponStats>) -> (r: bool)
    ensures
        r == (total_deaths(weapons_stats@) <= u32::MAX),
{
    let entries = weapons_stats.entries();
    let ghost all = entries@;
    proof {
        lemma_seq_deaths_total(all, weapons_stats@);
    }
    let mut total: u64 = 0;
    let mut i: usize = 0;
    assert(all.take(0) =~= Seq::<(String, WeaponStats)>::empty());
    while i < entries.len()
        invariant
            entries@ == all,
            seq_deaths(all) == total_deaths(weapons_stats@),
            i <= all.len(),
            total == seq_deaths(all.take(i as int)),
            total <= u32::MAX,
        decreases entries.len() - i,
    {
        proof {
            lemma_seq_deaths_prefix(all, i as int);
            lemma_seq_deaths_prefix(all, i + 1);
        }
        total = total + entries[i].1.deaths as u64;
        if total > u32::MAX as u64 {
            return false;
        }
        i = i + 1;
    }
    proof {
        lemma_seq_deaths_prefix(all, i as int);
    }
    true
}

/// The summaries of the gathered weapon records `m`.
pub open spec fn summaries(m: Map<Seq<char>, WeaponStatsView>) -> Map<Seq<char>, Weapon> {
    m.map_values(|s: WeaponStatsView| summarize(s, total_deaths(m)))
}

/// Summarises the gathered weapon records: each weapon's share of all
/// kills, and the average distance of its kills.
pub fn process_weapon_stats(weapons_stats: NameMap<WeaponStats>) -> (r: NameMap<Weapon>)
    requires
        total_deaths(weapons_stats@) <= u32::MAX,
    ensures
        r@ == summaries(weapons_stats@),
        r@.dom() == weapons_stats@.dom(),
        forall|k: Seq<char>| #[trigger] r@.contains_key(k) ==> match r@[k].average_distance {
            Some(a) => {
                &&& weapons_stats@[k].distance_count > 0
                &&& 2 * weapons_stats@[k].distance_count * a <= 2 * weapons_stats@[k].distance_total
                    + weapons_stats@[k].distance_count
                &&& 2 * weapons_stats@[k].distance_total + weapons_stats@[k].distance_count < 2
                    * weapons_stats@[k].distance_count * (a + 1)
            },
            None => weapons_stats@[k].distance_count == 0,
        },
        forall|k: Seq<char>| #[trigger] r@.contains_key(k) ==> match r@[k].deaths_percentage {
            Some(p) => {
                &&& total_deaths(weapons_stats@) > 0
                &&& 2 * total_deaths(weapons_stats@) * p <= 20000 * weapons_stats@[k].deaths
                    + total_deaths(weapons_stats@)
                &&& 20000 * weapons_stats@[k].deaths + total_deaths(weapons_stats@) < 2
                    * total_deaths(weapons_stats@) * (p + 1)
            },
            None => total_deaths(weapons_stats@) == 0,
        },
{
    let ghost m = weapons_stats@;
    let mut rest = weapons_stats.into_entries();
    let ghost all = rest@;
    proof {
        lemma_seq_deaths_total(all, m);
    }
    let ghost total_spec = total_deaths(m);
    let mut total: u64 = 0;
    let mut i: usize = 0;
    while i < rest.len()
        invariant
            rest@ == all,
            seq_deaths(all) == total_spec,
            total_spec <= u32::MAX,
            i <= all.len(),
            total == seq_deaths(all.take(i as int)),
        decreases rest.len() - i,
    {
        proof {
            lemma_seq_deaths_prefix(all, i as int);
            lemma_seq_deaths_prefix(all, i + 1);
        }
        total = total + rest[i].1.deaths as u64;
        i = i + 1;
    }
    proof {
        lemma_seq_deaths_prefix(all, i as int);
    }
    assert(total == total_spec);
    let ghost summ = |s: WeaponStatsView| summarize(s, total_spec);
    let mut result: NameMap<Weapon> = NameMap::new();
    assert(all.subrange(all.len() as int, all.len() as int) =~= Seq::<(String, WeaponStats)>::empty());
    assert(entry_names(Seq::<(String, WeaponStats)>::empty()).to_set() =~= Set::<Seq<char>>::empty());
    assert(result@ =~= m.restrict(Set::<Seq<char>>::empty()).map_values(summ));
    while rest.len() > 0
        invariant
            lists(all, m),
            total == total_deaths(m),
            total_spec == total,
            summ == (|s: WeaponStatsView| summarize(s, total_spec)),
            total <= u32::MAX,
            m.dom().finite(),
            rest@.len() <= all.len(),
            rest@ == all.subrange(0, rest@.len() as int),
            result@ == m.restrict(
                entry_names(all.subrange(rest@.len() as int, all.len() as int)).to_set(),
            ).map_values(summ),
        decreases rest.len(),
    {
        let ghost r = rest@.len() - 1;
        proof {
            lemma_suffix_names(all, r);
        }
        assert(rest@[r] == all[r]);
        let (name, stats) = rest.pop().unwrap();
        assert(entry_names(all)[r] == name@);
        assert(m.contains_key(name@) && m[name@] == stats@) by {
            assert(entry_names(all).to_set().contains(name@));
            assert(m[all[r].0@] == all[r].1@);
        }
        proof {
            lemma_total_remove(m, name@);
            if total > 0 {
                lemma_round_div_le(10000 * stats@.deaths, total as nat, 10000);
            }
            if stats.distance_count > 0 {
                let t = stats@.distance_total;
                let c = stats@.distance_count;
                assert(t <= t * c) by (nonlinear_arith)
                    requires
                        c >= 1,
                ;
                lemma_round_div_le(
                    stats@.distance_total,
                    stats@.distance_count,
                    stats@.distance_total,
                );
            }
        }
        let deaths_percentage = if total == 0 {
            None
        } else {
            Some((20000 * stats.deaths as u64 + total) / (2 * total))
        };
        let average_distance = if stats.distance_count == 0 {
            None
        } else {
            let t = stats.distance_total as u128;
            let c = stats.distance_count as u128;
            Some(((2 * t + c) / (2 * c)) as u64)
        };
        let weapon = Weapon { deaths_percentage, average_distance };
        assert(weapon == summ(stats@));
        result.insert(name, weapon);
        assert(result@ =~= m.restrict(
            entry_names(all.subrange(r, all.len() as int)).to_set(),
        ).map_values(summ));
    }
    assert(all.subrange(0, all.len() as int) =~= all);
    assert(m.restrict(entry_names(all).to_set()) =~= m);
    assert(result@ =~= m.map_values(summ));
    assert(summaries(m) =~= m.map_values(summ));
    assert forall|k: Seq<char>| #[trigger] result@.contains_key(k) implies {
        &&& match result@[k].average_distance {
            Some(a) => {
                &&& m[k].distance_count > 0
                &&& 2 * m[k].distance_count * a <= 2 * m[k].distance_total + m[k].distance_count
                &&& 2 * m[k].distance_total + m[k].distance_count < 2 * m[k].distance_count * (a + 1)
            },
            None => m[k].distance_count == 0,
        }
        &&& match result@[k].deaths_percentage {
            Some(p) => {
                &&& total_deaths(m) > 0
                &&& 2 * total_deaths(m) * p <= 20000 * m[k].deaths + total_deaths(m)
                &&& 20000 * m[k].deaths + total_deaths(m) < 2 * total_deaths(m) * (p + 1)
            },
            None => total_deaths(m) == 0,
        }
    } by {
        assert(entry_names(all).to_set().contains(k));
        let j = choose|j: int| 0 <= j < all.len() && #[trigger] entry_names(all)[j] == k;
        assert(m[all[j].0@] == all[j].1@);
        crate::laws::law_summary_figures(m, k);
    }
    result
}

/// Every weapon's share of kills is defined, or none is.
pub open spec fn uniform_shares(m: Map<Seq<char>, Weapon>) -> bool {
    ||| forall|k: Seq<char>| m.contains_key(k) ==> (#[trigger] m[k]).deaths_percentage is Some
    ||| forall|k: Seq<char>| m.contains_key(k) ==> (#[trigger] m[k]).deaths_percentage is None
}

/// The `n` weapons with the largest share of kills, ties broken by name
/// (all the weapons, when there are no more than `n`).
///
/// The shares must all be defined or all undefined: an undefined share
/// compares to a defined one neither way, and the ranking is then no order.
pub fn get_top_weapons(weapons: NameMap<Weapon>, n: usize) -> (r: NameMap<Weapon>)
    requires
        uniform_shares(weapons@),
    ensures
        is_top(r@.dom(), scores::<Weapon>(weapons@), n as nat),
        r@ == weapons@.restrict(r@.dom()),
        forall|a: Seq<char>, b: Seq<char>|
            #![trigger r@.contains_key(a), weapons@.contains_key(b)]
            r@.contains_key(a) && weapons@.contains_key(b) && !r@.contains_key(b) ==> match (
                weapons@[a].deaths_percentage,
                weapons@[b].deaths_percentage,
            ) {
                (Some(x), Some(y)) => x > y || (x == y && name_before(a, b)),
                (None, None) => name_before(a, b),
                (Some(x), None) => x > 0 || name_before(a, b),
                (None, Some(y)) => y == 0 && name_before(a, b),
            },
{
    let r = top_of(weapons, n);
    proof {
        crate::laws::law_top_weapons_by_share(weapons@, r@.dom(), n as nat);
    }
    r
}

/// The share of `count` kills among a killer's `deaths` kills, in
/// hundredths of a percent, rounded half up. `u64::MAX` stands for a share
/// that is not a finite number: infinite (a count among no kills) or
/// undefined (no count among no kills); it also caps a share too large for
/// a `u64`.
pub open spec fn weapon_share(count: nat, deaths: nat) -> nat {
    if deaths == 0 {
        u64::MAX as nat
    } else if round_div(10000 * count, deaths) > u64::MAX {
        u64::MAX as nat
    } else {
        round_div(10000 * count, deaths)
    }
}

/// Each weapon's share of the killer's kills (see [`weapon_share`]).
pub open spec fn shares_of(p: PlayerView) -> Map<Seq<char>, nat> {
    p.weapons.map_values(|c: nat| weapon_share(c, p.deaths))
}

/// Some share of the killer `p` is undefined: it has no kills, and a weapon
/// with no kills either. Such a share is equal to every other in the
/// comparison of shares, which then fixes no order of the weapons.
pub open spec fn share_undefined(p: PlayerView) -> bool {
    p.deaths == 0 && exists|w: Seq<char>| #[trigger] p.weapons.contains_key(w) && p.weapons[w] == 0
}

/// `q` is how the killer `p` shows in a ranking: the same kills, and the
/// shares of the killer's three leading weapons by share, ties broken by
/// name. When a share is undefined, the weapons have no order, and `q`
/// keeps the shares of some three of them (all, when there are fewer).
pub open spec fn ranked_player(p: PlayerView, q: PlayerView) -> bool {
    &&& q.deaths == p.deaths
    &&& q.weapons == shares_of(p).restrict(q.weapons.dom())
    &&& if share_undefined(p) {
        &&& q.weapons.dom().finite()
        &&& q.weapons.dom().subset_of(p.weapons.dom())
        &&& q.weapons.dom().len() == if 3 < p.weapons.len() {
            3
        } else {
            p.weapons.len()
        }
    } else {
        is_top(q.weapons.dom(), shares_of(p).map_values(|v: nat| v as int), 3)
    }
}

fn rank_player_weapons(p: Player) -> (q: Player)
    ensures
        ranked_player(p@, q@),
{
    let ghost pv = p@;
    let Player { deaths, weapons_percentage } = p;
    let ghost wm = weapons_percentage@;
    let mut rest = weapons_percentage.into_entries();
    let ghost all = rest@;
    let ghost target = shares_of(pv);
    let mut shares: NameMap<u64> = NameMap::new();
    assert(all.subrange(all.len() as int, all.len() as int) =~= Seq::<(String, u64)>::empty());
    assert(entry_names(Seq::<(String, u64)>::empty()).to_set() =~= Set::<Seq<char>>::empty());
    assert(tallies(shares@) =~= target.restrict(Set::<Seq<char>>::empty()));
    while rest.len() > 0
        invariant
            lists(all, wm),
            pv.weapons == tallies(wm),
            pv.deaths == deaths,
            target == shares_of(pv),
            rest@.len() <= all.len(),
            rest@ == all.subrange(0, rest@.len() as int),
            tallies(shares@) == target.restrict(
                entry_names(all.subrange(rest@.len() as int, all.len() as int)).to_set(),
            ),
        decreases rest.len(),
    {
        let ghost r = rest@.len() - 1;
        proof {
            lemma_suffix_names(all, r);
        }
        assert(rest@[r] == all[r]);
        let (name, count) = rest.pop().unwrap();
        assert(wm.contains_key(name@) && wm[name@] == count) by {
            assert(entry_names(all)[r] == name@);
            assert(entry_names(all).to_set().contains(name@));
            assert(wm[all[r].0@] == all[r].1@);
        }
        assert(pv.weapons.contains_key(name@));
        let share: u64 = if deaths == 0 {
            u64::MAX
        } else {
            let c = count as u128;
            let d = deaths as u128;
            let scaled = 10000 * c;
            let q = (2 * scaled + d) / (2 * d);
            if q > u64::MAX as u128 {
                u64::MAX
            } else {
                q as u64
            }
        };
        assert(share == target[name@]);
        let ghost before = shares@;
        shares.insert(name, share);
        assert(tallies(shares@) =~= tallies(before).insert(name@, share as nat));
        assert(tallies(shares@) =~= target.restrict(
            entry_names(all.subrange(r, all.len() as int)).to_set(),
        ));
    }
    assert(all.subrange(0, all.len() as int) =~= all);
    assert(wm.dom() =~= pv.weapons.dom());
    assert(target.restrict(entry_names(all).to_set()) =~= target);
    let ghost sm = shares@;
    let top = top_of(shares, 3);
    let q = Player { deaths, weapons_percentage: top };
    assert(q@.weapons.dom() =~= top@.dom());
    assert(q@.deaths == pv.deaths);
    assert(scores::<u64>(sm) =~= target.map_values(|v: nat| v as int)) by {
        assert(sm.dom() =~= target.dom());
        assert forall|k: Seq<char>| sm.contains_key(k) implies scores::<u64>(sm)[k] == target.map_values(
            |v: nat| v as int,
        )[k] by {
            assert(tallies(sm)[k] == sm[k] as nat);
        }
    }
    assert(q@.weapons =~= target.restrict(q@.weapons.dom())) by {
        assert forall|k: Seq<char>| q@.weapons.contains_key(k) implies q@.weapons[k] == target[k] by {
            assert(tallies(sm)[k] == sm[k] as nat);
        }
    }
    q
}

/// The `n` killers with the most kills, ties broken by name (all the
/// killers, when there are no more than `n`), each shown with the shares
/// of its three leading weapons.
pub fn get_top_killers(players: NameMap<Player>, n: usize) -> (r: NameMap<Player>)
    ensures
        is_top(r@.dom(), scores::<Player>(players@), n as nat),
        forall|k: Seq<char>| #[trigger] r@.contains_key(k) ==> ranked_player(players@[k], r@[k]),
        forall|a: Seq<char>, b: Seq<char>|
            #![trigger r@.contains_key(a), players@.contains_key(b)]
            r@.contains_key(a) && players@.contains_key(b) && !r@.contains_key(b) ==> {
                ||| players@[a].deaths > players@[b].deaths
                ||| players@[a].deaths == players@[b].deaths && name_before(a, b)
            },
{
    let ghost pm = players@;
    let top = top_of(players, n);
    let ghost tm = top@;
    let mut rest = top.into_entries();
    let ghost all = rest@;
    let mut result: NameMap<Player> = NameMap::new();
    assert(all.subrange(all.len() as int, all.len() as int) =~= Seq::<(String, Player)>::empty());
    assert(entry_names(Seq::<(String, Player)>::empty()).to_set() =~= Set::<Seq<char>>::empty());
    assert(result@.dom() =~= Set::<Seq<char>>::empty());
    while rest.len() > 0
        invariant
            lists(all, tm),
            tm == pm.restrict(tm.dom()),
            rest@.len() <= all.len(),
            rest@ == all.subrange(0, rest@.len() as int),
            result@.dom() == entry_names(all.subrange(rest@.len() as int, all.len() as int)).to_set(),
            forall|k: Seq<char>| #[trigger] result@.contains_key(k) ==> ranked_player(pm[k], result@[k]),
        decreases rest.len(),
    {
        let ghost r = rest@.len() - 1;
        proof {
            lemma_suffix_names(all, r);
        }
        assert(rest@[r] == all[r]);
        let (name, p) = rest.pop().unwrap();
        assert(tm.contains_key(name@) && tm[name@] == p@) by {
            assert(entry_names(all)[r] == name@);
            assert(entry_names(all).to_set().contains(name@));
            assert(tm[all[r].0@] == all[r].1@);
        }
        assert(pm.contains_key(name@) && pm[name@] == p@);
        let q = rank_player_weapons(p);
        result.insert(name, q);
    }
    assert(all.subrange(0, all.len() as int) =~= all);
    assert(result@.dom() =~= tm.dom());
    proof {
        crate::laws::law_top_killers_by_kills(pm, tm.dom(), n as nat);
    }
    result
}

} // verus!
