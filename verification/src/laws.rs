//! What holds of the library as a whole: records of killers and of weapons
//! can be merged in any grouping and in any order with the same result, so
//! splitting the lines of the data among any number of workers does not
//! change what is gathered; and a ranking is determined by the records
//! alone.

use vstd::prelude::*;
use crate::merge::{
    add_nat, associative, commutative, fold_with, lemma_add_nat, lemma_fold_permutation,
    lemma_fold_split, lemma_merge_associative, lemma_merge_commutative, lemma_merge_identity,
    merge_with,
};
use crate::output::{ranks_records, TOP_COUNT};
use crate::player::{join_players, Player, PlayerView};
use crate::order::name_before;
use crate::top::{is_top, lemma_ranking, ranks_before, scores};
use crate::utils::{
    killer_record, lemma_total_remove, ranked_player, round_div, share_undefined, shares_of,
    summaries, total_deaths, weapon_record,
};
use crate::valid::{
    count_sum, killer_valid, killers_valid, lemma_count_sum_merge, lemma_count_sum_remove, lemma_merge_killers_valid,
    lemma_merge_weapons_valid, weapons_valid,
};
use crate::weapon::{join_stats, Weapon, WeaponStatsView};

verus! {

proof fn lemma_join_players()
    ensures
        associative(join_players()),
        commutative(join_players()),
{
    lemma_add_nat();
    assert forall|x: PlayerView, y: PlayerView, z: PlayerView|
        #[trigger] join_players()(join_players()(x, y), z) == join_players()(
            x,
            #[trigger] join_players()(y, z),
        ) by {
        lemma_merge_associative(x.weapons, y.weapons, z.weapons, add_nat());
    }
    assert forall|x: PlayerView, y: PlayerView| #[trigger]
        join_players()(x, y) == join_players()(y, x) by {
        lemma_merge_commutative(x.weapons, y.weapons, add_nat());
    }
}

proof fn lemma_join_stats()
    ensures
        associative(join_stats()),
        commutative(join_stats()),
{
}

/// Merging killer records is associative.
pub proof fn law_merge_killers_associative(
    a: Map<Seq<char>, PlayerView>,
    b: Map<Seq<char>, PlayerView>,
    c: Map<Seq<char>, PlayerView>,
)
    ensures
        merge_with(merge_with(a, b, join_players()), c, join_players()) == merge_with(
            a,
            merge_with(b, c, join_players()),
            join_players(),
        ),
{
    lemma_join_players();
    lemma_merge_associative(a, b, c, join_players());
}

/// Merging killer records is commutative.
pub proof fn law_merge_killers_commutative(a: Map<Seq<char>, PlayerView>, b: Map<Seq<char>, PlayerView>)
    ensures
        merge_with(a, b, join_players()) == merge_with(b, a, join_players()),
{
    lemma_join_players();
    lemma_merge_commutative(a, b, join_players());
}

/// Merging with no killer records changes nothing.
pub proof fn law_merge_killers_identity(a: Map<Seq<char>, PlayerView>)
    ensures
        merge_with(a, Map::empty(), join_players()) == a,
        merge_with(Map::empty(), a, join_players()) == a,
{
    lemma_merge_identity(a, join_players());
}

/// Merging weapon records is associative.
pub proof fn law_merge_weapons_associative(
    a: Map<Seq<char>, WeaponStatsView>,
    b: Map<Seq<char>, WeaponStatsView>,
    c: Map<Seq<char>, WeaponStatsView>,
)
    ensures
        merge_with(merge_with(a, b, join_stats()), c, join_stats()) == merge_with(
            a,
            merge_with(b, c, join_stats()),
            join_stats(),
        ),
{
    lemma_join_stats();
    lemma_merge_associative(a, b, c, join_stats());
}

/// Merging weapon records is commutative.
pub proof fn law_merge_weapons_commutative(
    a: Map<Seq<char>, WeaponStatsView>,
    b: Map<Seq<char>, WeaponStatsView>,
)
    ensures
        merge_with(a, b, join_stats()) == merge_with(b, a, join_stats()),
{
    lemma_join_stats();
    lemma_merge_commutative(a, b, join_stats());
}

/// Merging with no weapon records changes nothing.
pub proof fn law_merge_weapons_identity(a: Map<Seq<char>, WeaponStatsView>)
    ensures
        merge_with(a, Map::empty(), join_stats()) == a,
        merge_with(Map::empty(), a, join_stats()) == a,
{
    lemma_merge_identity(a, join_stats());
}

/// Gathering the killer records of a sequence of lines gives the same
/// result whether the lines are taken in one run or cut into two parts
/// gathered apart and then merged.
pub proof fn law_killers_any_split(
    s: Seq<Map<Seq<char>, PlayerView>>,
    t: Seq<Map<Seq<char>, PlayerView>>,
)
    ensures
        fold_with(s + t, join_players()) == merge_with(
            fold_with(s, join_players()),
            fold_with(t, join_players()),
            join_players(),
        ),
{
    lemma_join_players();
    lemma_fold_split(s, t, join_players());
}

/// Gathering the killer records of lines gives the same result in whatever
/// order the lines come.
pub proof fn law_killers_any_order(
    s: Seq<Map<Seq<char>, PlayerView>>,
    t: Seq<Map<Seq<char>, PlayerView>>,
)
    requires
        s.to_multiset() == t.to_multiset(),
    ensures
        fold_with(s, join_players()) == fold_with(t, join_players()),
{
    lemma_join_players();
    lemma_fold_permutation(s, t, join_players());
}

/// Gathering the weapon records of a sequence of lines gives the same
/// result whether the lines are taken in one run or cut into two parts
/// gathered apart and then merged.
pub proof fn law_weapons_any_split(
    s: Seq<Map<Seq<char>, WeaponStatsView>>,
    t: Seq<Map<Seq<char>, WeaponStatsView>>,
)
    ensures
        fold_with(s + t, join_stats()) == merge_with(
            fold_with(s, join_stats()),
            fold_with(t, join_stats()),
            join_stats(),
        ),
{
    lemma_join_stats();
    lemma_fold_split(s, t, join_stats());
}

/// Gathering the weapon records of lines gives the same result in whatever
/// order the lines come.
pub proof fn law_weapons_any_order(
    s: Seq<Map<Seq<char>, WeaponStatsView>>,
    t: Seq<Map<Seq<char>, WeaponStatsView>>,
)
    requires
        s.to_multiset() == t.to_multiset(),
    ensures
        fold_with(s, join_stats()) == fold_with(t, join_stats()),
{
    lemma_join_stats();
    lemma_fold_permutation(s, t, join_stats());
}

/// The `n` leading names of a ranking are determined by the scores alone:
/// two selections that both meet the description are the same.
pub proof fn law_top_unique(
    sel1: Set<Seq<char>>,
    sel2: Set<Seq<char>>,
    scores: Map<Seq<char>, int>,
    n: nat,
)
    requires
        is_top(sel1, scores, n),
        is_top(sel2, scores, n),
    ensures
        sel1 == sel2,
{
    if sel1 != sel2 {
        let (x, y) = if exists|a: Seq<char>| sel1.contains(a) && !sel2.contains(a) {
            (sel1, sel2)
        } else {
            assert(!sel2.subset_of(sel1) || sel1 =~= sel2);
            (sel2, sel1)
        };
        let a = choose|a: Seq<char>| x.contains(a) && !y.contains(a);
        if y.subset_of(x) {
            assert(y.subset_of(x.remove(a)));
            vstd::set_lib::lemma_len_subset(y, x.remove(a));
            assert(false);
        }
        let b = choose|b: Seq<char>| y.contains(b) && !x.contains(b);
        assert(ranks_before(scores[a], a, scores[b], b));
        assert(ranks_before(scores[b], b, scores[a], a));
        lemma_ranking(scores[a], a, scores[b], b, scores[a], a);
    }
}

/// A killer's ranked record is determined by the gathered one, when none
/// of its shares is undefined.
pub proof fn law_ranked_player_unique(p: PlayerView, q1: PlayerView, q2: PlayerView)
    requires
        !share_undefined(p),
        ranked_player(p, q1),
        ranked_player(p, q2),
    ensures
        q1 == q2,
{
    law_top_unique(
        q1.weapons.dom(),
        q2.weapons.dom(),
        shares_of(p).map_values(|v: nat| v as int),
        3,
    );
    assert(q1.weapons =~= q2.weapons);
    assert(q1 =~= q2);
}

/// The rankings are determined by the gathered records: two rankings of the
/// same records are the same, when no killer has an undefined share (as
/// none does in gathered records, see [`law_process_killer_keeps_valid`]).
pub proof fn law_output_determined(
    killers: Map<Seq<char>, PlayerView>,
    weapons: Map<Seq<char>, WeaponStatsView>,
    top_killers1: Map<Seq<char>, PlayerView>,
    top_weapons1: Map<Seq<char>, Weapon>,
    top_killers2: Map<Seq<char>, PlayerView>,
    top_weapons2: Map<Seq<char>, Weapon>,
)
    requires
        forall|k: Seq<char>| #[trigger] killers.contains_key(k) ==> !share_undefined(killers[k]),
        ranks_records(killers, weapons, top_killers1, top_weapons1),
        ranks_records(killers, weapons, top_killers2, top_weapons2),
    ensures
        top_killers1 == top_killers2,
        top_weapons1 == top_weapons2,
{
    law_top_unique(
        top_killers1.dom(),
        top_killers2.dom(),
        scores::<Player>(killers),
        TOP_COUNT as nat,
    );
    assert forall|k: Seq<char>| #[trigger] top_killers1.contains_key(k) implies top_killers1[k]
        == top_killers2[k] by {
        law_ranked_player_unique(killers[k], top_killers1[k], top_killers2[k]);
    }
    assert(top_killers1 =~= top_killers2);
    law_top_unique(
        top_weapons1.dom(),
        top_weapons2.dom(),
        scores::<Weapon>(summaries(weapons)),
        TOP_COUNT as nat,
    );
}

/// Gathering valid killer records gives valid records.
proof fn lemma_fold_killers_valid(lines: Seq<Map<Seq<char>, PlayerView>>)
    requires
        forall|i: int| 0 <= i < lines.len() ==> killers_valid(#[trigger] lines[i]),
    ensures
        killers_valid(fold_with(lines, join_players())),
    decreases lines.len(),
{
    if lines.len() > 0 {
        assert forall|i: int| 0 <= i < lines.drop_last().len() implies killers_valid(
            #[trigger] lines.drop_last()[i],
        ) by {
            assert(lines.drop_last()[i] == lines[i]);
        }
        lemma_fold_killers_valid(lines.drop_last());
        assert(killers_valid(lines[lines.len() - 1]));
        lemma_merge_killers_valid(fold_with(lines.drop_last(), join_players()), lines.last());
    }
}

/// The rankings do not depend on how the lines are shared out or in which
/// order their records are gathered: rankings of the valid records of the
/// same lines, taken in any two orders, are the same.
pub proof fn law_output_any_order(
    killer_lines1: Seq<Map<Seq<char>, PlayerView>>,
    weapon_lines1: Seq<Map<Seq<char>, WeaponStatsView>>,
    killer_lines2: Seq<Map<Seq<char>, PlayerView>>,
    weapon_lines2: Seq<Map<Seq<char>, WeaponStatsView>>,
    top_killers1: Map<Seq<char>, PlayerView>,
    top_weapons1: Map<Seq<char>, Weapon>,
    top_killers2: Map<Seq<char>, PlayerView>,
    top_weapons2: Map<Seq<char>, Weapon>,
)
    requires
        forall|i: int| 0 <= i < killer_lines1.len() ==> killers_valid(#[trigger] killer_lines1[i]),
        killer_lines1.to_multiset() == killer_lines2.to_multiset(),
        weapon_lines1.to_multiset() == weapon_lines2.to_multiset(),
        ranks_records(
            fold_with(killer_lines1, join_players()),
            fold_with(weapon_lines1, join_stats()),
            top_killers1,
            top_weapons1,
        ),
        ranks_records(
            fold_with(killer_lines2, join_players()),
            fold_with(weapon_lines2, join_stats()),
            top_killers2,
            top_weapons2,
        ),
    ensures
        top_killers1 == top_killers2,
        top_weapons1 == top_weapons2,
{
    law_killers_any_order(killer_lines1, killer_lines2);
    law_weapons_any_order(weapon_lines1, weapon_lines2);
    lemma_fold_killers_valid(killer_lines1);
    let gathered = fold_with(killer_lines1, join_players());
    assert forall|k: Seq<char>| #[trigger] gathered.contains_key(k) implies !share_undefined(
        gathered[k],
    ) by {
        assert(killer_valid(gathered[k]));
    }
    law_output_determined(
        fold_with(killer_lines1, join_players()),
        fold_with(weapon_lines1, join_stats()),
        top_killers1,
        top_weapons1,
        top_killers2,
        top_weapons2,
    );
}

/// The records of one line are valid, whatever its fields and distance.
pub proof fn law_line_records_valid(fields: Seq<Seq<char>>, distance: Option<u64>)
    ensures
        killers_valid(killer_record(fields)),
        weapons_valid(weapon_record(fields, distance)),
{
    if fields.len() > 1 && fields[1].len() > 0 {
        let w = map![fields[0] => 1nat];
        assert(w.contains_key(fields[0]));
        lemma_count_sum_remove(w, fields[0]);
        assert(w.remove(fields[0]) =~= Map::<Seq<char>, nat>::empty());
        assert(count_sum(w) == 1);
    }
}

/// Processing a line keeps every killer record valid: the killer's kills
/// stay the sum of its kills per weapon, each at least one.
pub proof fn law_process_killer_keeps_valid(
    killers: Map<Seq<char>, PlayerView>,
    fields: Seq<Seq<char>>,
)
    requires
        killers_valid(killers),
    ensures
        killers_valid(merge_with(killers, killer_record(fields), join_players())),
{
    law_line_records_valid(fields, None);
    lemma_merge_killers_valid(killers, killer_record(fields));
}

/// Processing a line keeps every weapon record valid: no more kills with a
/// known distance than kills, and no distance without such a kill.
pub proof fn law_process_weapon_keeps_valid(
    weapons: Map<Seq<char>, WeaponStatsView>,
    fields: Seq<Seq<char>>,
    distance: Option<u64>,
)
    requires
        weapons_valid(weapons),
    ensures
        weapons_valid(merge_with(weapons, weapon_record(fields, distance), join_stats())),
{
    law_line_records_valid(fields, distance);
    lemma_merge_weapons_valid(weapons, weapon_record(fields, distance));
}

/// Merging valid records gives valid records.
pub proof fn law_merge_keeps_valid(
    killers1: Map<Seq<char>, PlayerView>,
    weapons1: Map<Seq<char>, WeaponStatsView>,
    killers2: Map<Seq<char>, PlayerView>,
    weapons2: Map<Seq<char>, WeaponStatsView>,
)
    requires
        killers_valid(killers1),
        weapons_valid(weapons1),
        killers_valid(killers2),
        weapons_valid(weapons2),
    ensures
        killers_valid(merge_with(killers1, killers2, join_players())),
        weapons_valid(merge_with(weapons1, weapons2, join_stats())),
{
    lemma_merge_killers_valid(killers1, killers2);
    lemma_merge_weapons_valid(weapons1, weapons2);
}

/// Asking for at least as many leaders as there are entries selects them
/// all.
pub proof fn law_top_takes_all(sel: Set<Seq<char>>, scores: Map<Seq<char>, int>, n: nat)
    requires
        is_top(sel, scores, n),
        scores.dom().finite(),
        n >= scores.len(),
    ensures
        sel == scores.dom(),
{
    vstd::set_lib::lemma_subset_equality(sel, scores.dom());
}

/// Ranking weapons with `n` at least their number keeps them all, each
/// with its summary.
pub proof fn law_top_weapons_all(weapons: Map<Seq<char>, Weapon>, top: Map<Seq<char>, Weapon>, n: nat)
    requires
        weapons.dom().finite(),
        n >= weapons.len(),
        is_top(top.dom(), scores::<Weapon>(weapons), n),
        top == weapons.restrict(top.dom()),
    ensures
        top == weapons,
{
    assert(scores::<Weapon>(weapons).dom() =~= weapons.dom());
    law_top_takes_all(top.dom(), scores::<Weapon>(weapons), n);
    assert(top =~= weapons);
}

/// Ranking killers with `n` at least their number keeps them all.
pub proof fn law_top_killers_all(
    players: Map<Seq<char>, PlayerView>,
    top: Map<Seq<char>, PlayerView>,
    n: nat,
)
    requires
        players.dom().finite(),
        n >= players.len(),
        is_top(top.dom(), scores::<Player>(players), n),
    ensures
        top.dom() == players.dom(),
{
    assert(scores::<Player>(players).dom() =~= players.dom());
    law_top_takes_all(top.dom(), scores::<Player>(players), n);
}

/// Merging killer records whose kills per weapon add up to their kills
/// gives records whose kills per weapon add up to their kills.
pub proof fn law_merge_killers_keeps_sums(
    a: Map<Seq<char>, PlayerView>,
    b: Map<Seq<char>, PlayerView>,
)
    requires
        forall|k: Seq<char>| #[trigger] a.contains_key(k) ==> a[k].weapons.dom().finite()
            && count_sum(a[k].weapons) == a[k].deaths,
        forall|k: Seq<char>| #[trigger] b.contains_key(k) ==> b[k].weapons.dom().finite()
            && count_sum(b[k].weapons) == b[k].deaths,
    ensures
        forall|k: Seq<char>| #[trigger] merge_with(a, b, join_players()).contains_key(k) ==> {
            let p = merge_with(a, b, join_players())[k];
            p.weapons.dom().finite() && count_sum(p.weapons) == p.deaths
        },
{
    assert forall|k: Seq<char>| #[trigger] merge_with(a, b, join_players()).contains_key(k) implies {
        let p = merge_with(a, b, join_players())[k];
        p.weapons.dom().finite() && count_sum(p.weapons) == p.deaths
    } by {
        if a.contains_key(k) && b.contains_key(k) {
            lemma_count_sum_merge(a[k].weapons, b[k].weapons);
        }
    }
}

/// Killers are ranked by their kills: among the `n` leading killers of
/// `players`, each has more kills than every killer left out, or as many
/// and a name that comes first; and there are `n` of them, or all.
pub proof fn law_top_killers_by_kills(
    players: Map<Seq<char>, PlayerView>,
    top: Set<Seq<char>>,
    n: nat,
)
    requires
        is_top(top, scores::<Player>(players), n),
    ensures
        top.subset_of(players.dom()),
        players.dom().finite() ==> top.len() == if n < players.len() {
            n
        } else {
            players.len()
        },
        forall|a: Seq<char>, b: Seq<char>|
            #![trigger top.contains(a), players.contains_key(b)]
            top.contains(a) && players.contains_key(b) && !top.contains(b) ==> {
                ||| players[a].deaths > players[b].deaths
                ||| players[a].deaths == players[b].deaths && name_before(a, b)
            },
{
    let sc = scores::<Player>(players);
    assert(sc.dom() =~= players.dom());
    assert forall|a: Seq<char>, b: Seq<char>|
        #![trigger top.contains(a), players.contains_key(b)]
        top.contains(a) && players.contains_key(b) && !top.contains(b) implies {
            ||| players[a].deaths > players[b].deaths
            ||| players[a].deaths == players[b].deaths && name_before(a, b)
        } by {
        assert(ranks_before(sc[a], a, sc[b], b));
        assert(sc[a] == players[a].deaths && sc[b] == players[b].deaths);
    }
}

/// Weapons are ranked by their share of kills: among the `n` leading
/// weapons, each has a larger share than every weapon left out, or the
/// same share and a name that comes first; when no share is defined, the
/// names alone decide. There are `n` of them, or all.
pub proof fn law_top_weapons_by_share(
    weapons: Map<Seq<char>, Weapon>,
    top: Set<Seq<char>>,
    n: nat,
)
    requires
        is_top(top, scores::<Weapon>(weapons), n),
    ensures
        top.subset_of(weapons.dom()),
        weapons.dom().finite() ==> top.len() == if n < weapons.len() {
            n
        } else {
            weapons.len()
        },
        forall|a: Seq<char>, b: Seq<char>|
            top.contains(a) && weapons.contains_key(b) && !top.contains(b) ==> match (
                weapons[a].deaths_percentage,
                weapons[b].deaths_percentage,
            ) {
                (Some(x), Some(y)) => x > y || (x == y && name_before(a, b)),
                (None, None) => name_before(a, b),
                (Some(x), None) => x > 0 || name_before(a, b),
                (None, Some(y)) => y == 0 && name_before(a, b),
            },
{
    let sc = scores::<Weapon>(weapons);
    assert(sc.dom() =~= weapons.dom());
    assert forall|a: Seq<char>, b: Seq<char>|
        top.contains(a) && weapons.contains_key(b) && !top.contains(b) implies match (
            weapons[a].deaths_percentage,
            weapons[b].deaths_percentage,
        ) {
            (Some(x), Some(y)) => x > y || (x == y && name_before(a, b)),
            (None, None) => name_before(a, b),
            (Some(x), None) => x > 0 || name_before(a, b),
            (None, Some(y)) => y == 0 && name_before(a, b),
        } by {
        assert(ranks_before(sc[a], a, sc[b], b));
    }
}

/// Rounding a quotient half up: `q` is the nearest whole number to
/// `a / b`, halves going up.
proof fn lemma_round_div_bounds(a: nat, b: nat)
    requires
        b > 0,
    ensures
        2 * b * round_div(a, b) <= 2 * a + b,
        2 * a + b < 2 * b * (round_div(a, b) + 1),
{
    let x = 2 * a + b;
    let d = 2 * b;
    vstd::arithmetic::div_mod::lemma_fundamental_div_mod(x as int, d as int);
    vstd::arithmetic::div_mod::lemma_mod_bound(x as int, d as int);
    assert(round_div(a, b) == x / d);
    assert(d * (x / d) == 2 * b * round_div(a, b)) by (nonlinear_arith)
        requires
            d == 2 * b,
            round_div(a, b) == x / d,
    ;
    assert(2 * b * (round_div(a, b) + 1) == 2 * b * round_div(a, b) + 2 * b) by (nonlinear_arith);
}

/// A weapon's summary: its average distance is the total distance of its
/// located kills over their number, and its share is its kills over all
/// kills, in hundredths of a percent; each rounded to the nearest
/// hundredth, halves going up, and undefined exactly when it would divide
/// by zero.
pub proof fn law_summary_figures(m: Map<Seq<char>, WeaponStatsView>, k: Seq<char>)
    requires
        m.dom().finite(),
        m.contains_key(k),
        m[k].distance_total <= u64::MAX,
    ensures
        summaries(m).contains_key(k),
        m[k].deaths <= total_deaths(m),
        match summaries(m)[k].average_distance {
            Some(a) => {
                &&& m[k].distance_count > 0
                &&& 2 * m[k].distance_count * a <= 2 * m[k].distance_total + m[k].distance_count
                &&& 2 * m[k].distance_total + m[k].distance_count < 2 * m[k].distance_count * (a + 1)
            },
            None => m[k].distance_count == 0,
        },
        match summaries(m)[k].deaths_percentage {
            Some(p) => {
                &&& total_deaths(m) > 0
                &&& 2 * total_deaths(m) * p <= 20000 * m[k].deaths + total_deaths(m)
                &&& 20000 * m[k].deaths + total_deaths(m) < 2 * total_deaths(m) * (p + 1)
            },
            None => total_deaths(m) == 0,
        },
{
    let s = m[k];
    let t = total_deaths(m);
    lemma_total_remove(m, k);
    if s.distance_count > 0 {
        let c = s.distance_count;
        let dt = s.distance_total;
        assert(dt <= dt * c) by (nonlinear_arith)
            requires
                c >= 1,
        ;
        crate::utils::lemma_round_div_le(dt, c, dt);
        lemma_round_div_bounds(dt, c);
    }
    if t > 0 {
        assert(10000 * s.deaths <= 10000 * t) by (nonlinear_arith)
            requires
                s.deaths <= t,
        ;
        crate::utils::lemma_round_div_le(10000 * s.deaths, t, 10000);
        lemma_round_div_bounds(10000 * s.deaths, t);
    }
}

/// Merging weapon records adds up, for each weapon, the kills, the
/// distance totals and the located kills of both sides.
pub proof fn law_merge_weapons_adds(
    a: Map<Seq<char>, WeaponStatsView>,
    b: Map<Seq<char>, WeaponStatsView>,
    k: Seq<char>,
)
    ensures
        merge_with(a, b, join_stats()).contains_key(k) <==> a.contains_key(k) || b.contains_key(k),
        a.contains_key(k) || b.contains_key(k) ==> {
            let m = merge_with(a, b, join_stats())[k];
            let x = if a.contains_key(k) {
                a[k]
            } else {
                WeaponStatsView { deaths: 0, distance_total: 0, distance_count: 0 }
            };
            let y = if b.contains_key(k) {
                b[k]
            } else {
                WeaponStatsView { deaths: 0, distance_total: 0, distance_count: 0 }
            };
            &&& m.deaths == x.deaths + y.deaths
            &&& m.distance_total == x.distance_total + y.distance_total
            &&& m.distance_count == x.distance_count + y.distance_count
        },
{
}

/// Merging killer records adds up, for each killer, the kills, and the
/// kills made with each weapon.
pub proof fn law_merge_killers_adds(
    a: Map<Seq<char>, PlayerView>,
    b: Map<Seq<char>, PlayerView>,
    k: Seq<char>,
    w: Seq<char>,
)
    ensures
        merge_with(a, b, join_players()).contains_key(k) <==> a.contains_key(k) || b.contains_key(k),
        a.contains_key(k) || b.contains_key(k) ==> {
            let m = merge_with(a, b, join_players())[k];
            let x = if a.contains_key(k) {
                a[k]
            } else {
                PlayerView { deaths: 0, weapons: Map::empty() }
            };
            let y = if b.contains_key(k) {
                b[k]
            } else {
                PlayerView { deaths: 0, weapons: Map::empty() }
            };
            &&& m.deaths == x.deaths + y.deaths
            &&& (m.weapons.contains_key(w) <==> x.weapons.contains_key(w) || y.weapons.contains_key(w))
            &&& m.weapons.contains_key(w) ==> m.weapons[w] == (if x.weapons.contains_key(w) {
                x.weapons[w]
            } else {
                0
            }) + (if y.weapons.contains_key(w) {
                y.weapons[w]
            } else {
                0
            })
        },
{
}

/// Gathering a line adds one kill to its weapon (the first field), with
/// its distance when it is known, and changes no other weapon.
pub proof fn law_line_adds_weapon_kill(
    weapons: Map<Seq<char>, WeaponStatsView>,
    fields: Seq<Seq<char>>,
    distance: Option<u64>,
    k: Seq<char>,
)
    requires
        fields.len() > 0,
    ensures
        ({
            let after = merge_with(weapons, weapon_record(fields, distance), join_stats());
            &&& after.dom() == weapons.dom().insert(fields[0])
            &&& k != fields[0] && weapons.contains_key(k) ==> after[k] == weapons[k]
            &&& {
                let before = if weapons.contains_key(fields[0]) {
                    weapons[fields[0]]
                } else {
                    WeaponStatsView { deaths: 0, distance_total: 0, distance_count: 0 }
                };
                &&& after[fields[0]].deaths == before.deaths + 1
                &&& after[fields[0]].distance_count == before.distance_count + match distance {
                    Some(_) => 1nat,
                    None => 0nat,
                }
                &&& after[fields[0]].distance_total == before.distance_total + match distance {
                    Some(d) => d as nat,
                    None => 0nat,
                }
            }
        }),
{
    let after = merge_with(weapons, weapon_record(fields, distance), join_stats());
    assert(after.dom() =~= weapons.dom().insert(fields[0]));
}

/// Gathering a line adds one kill to its killer (the second field, when it
/// is not empty), made with its weapon (the first field), and changes no
/// other killer and no other weapon of that killer; a line without a
/// killer changes nothing.
pub proof fn law_line_adds_killer_kill(
    killers: Map<Seq<char>, PlayerView>,
    fields: Seq<Seq<char>>,
    k: Seq<char>,
    w: Seq<char>,
)
    ensures
        ({
            let after = merge_with(killers, killer_record(fields), join_players());
            if fields.len() > 1 && fields[1].len() > 0 {
                let before = if killers.contains_key(fields[1]) {
                    killers[fields[1]]
                } else {
                    PlayerView { deaths: 0, weapons: Map::empty() }
                };
                &&& after.dom() == killers.dom().insert(fields[1])
                &&& k != fields[1] && killers.contains_key(k) ==> after[k] == killers[k]
                &&& after[fields[1]].deaths == before.deaths + 1
                &&& after[fields[1]].weapons.dom() == before.weapons.dom().insert(fields[0])
                &&& after[fields[1]].weapons[fields[0]] == (if before.weapons.contains_key(fields[0]) {
                    before.weapons[fields[0]]
                } else {
                    0
                }) + 1
                &&& w != fields[0] && before.weapons.contains_key(w) ==> after[fields[1]].weapons[w]
                    == before.weapons[w]
            } else {
                after == killers
            }
        }),
{
    let after = merge_with(killers, killer_record(fields), join_players());
    if fields.len() > 1 && fields[1].len() > 0 {
        assert(after.dom() =~= killers.dom().insert(fields[1]));
        let before = if killers.contains_key(fields[1]) {
            killers[fields[1]]
        } else {
            PlayerView { deaths: 0, weapons: Map::empty() }
        };
        assert(after[fields[1]].weapons.dom() =~= before.weapons.dom().insert(fields[0]));
    } else {
        assert(killer_record(fields) =~= Map::<Seq<char>, PlayerView>::empty());
        lemma_merge_identity(killers, join_players());
    }
}

} // verus!
