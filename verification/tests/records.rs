use std::collections::HashMap;

use fork_join::fields::split_fields;
use fork_join::name_map::NameMap;
use fork_join::order::name_less;
use fork_join::output::{Output, PADRON};
use fork_join::player::Player;
use fork_join::tally::can_merge;
use fork_join::top::ranks_first;
use fork_join::utils::{
    get_top_killers, get_top_weapons, kills_fit, merge, process_killer, process_line,
    process_weapon, process_weapon_stats,
};
use fork_join::weapon::{Weapon, WeaponStats};

fn counts(p: &Player) -> HashMap<String, u64> {
    p.weapons_percentage.entries().iter().map(|(k, v)| (k.clone(), *v)).collect()
}

fn killers_of(map: &NameMap<Player>) -> HashMap<String, (u32, HashMap<String, u64>)> {
    map.entries().iter().map(|(k, p)| (k.clone(), (p.deaths, counts(p)))).collect()
}

fn stats_of(map: &NameMap<WeaponStats>) -> HashMap<String, WeaponStats> {
    map.entries().iter().map(|(k, v)| (k.clone(), *v)).collect()
}

fn weapons_of(map: &NameMap<Weapon>) -> HashMap<String, Weapon> {
    map.entries().iter().map(|(k, v)| (k.clone(), *v)).collect()
}

fn sorted(mut v: Vec<String>) -> Vec<String> {
    v.sort();
    v
}

fn killer_names(map: &NameMap<Player>) -> Vec<String> {
    sorted(map.entries().iter().map(|(k, _)| k.clone()).collect())
}

fn weapon_names(map: &NameMap<Weapon>) -> Vec<String> {
    sorted(map.entries().iter().map(|(k, _)| k.clone()).collect())
}

fn player(deaths: u32, weapons: &[(&str, u64)]) -> Player {
    let mut map = NameMap::new();
    for (name, count) in weapons {
        map.insert(name.to_string(), *count);
    }
    Player { deaths, weapons_percentage: map }
}

const LINES: [&str; 6] = [
    "AKM,alice,2,100.0,100.0,x,x,x,x,x,103.0,104.0",
    "AKM,bob,2,0.0,0.0,x,x,x,x,x,1.0,1.0",
    "M16,alice,2,0.0,0.0,x,x,x,x,x,0.0,2.5",
    "Punch,,2",
    "M16,carol",
    "AKM,alice,2,bad,0.0,x,x,x,x,x,0.0,0.0",
];

/// The distance, in hundredths, that the coordinates of each line give.
const DISTANCES: [Option<u64>; 6] = [Some(500), Some(141), Some(250), None, None, None];

fn gather(order: &[usize]) -> (NameMap<Player>, NameMap<WeaponStats>) {
    let mut killers = NameMap::new();
    let mut weapons = NameMap::new();
    for &i in order {
        process_line(LINES[i], DISTANCES[i], &mut killers, &mut weapons);
    }
    (killers, weapons)
}

#[test]
fn name_map_insert_get_remove() {
    let mut m: NameMap<u64> = NameMap::new();
    assert_eq!(m.len(), 0);
    m.insert("a".to_string(), 1);
    m.insert("b".to_string(), 2);
    m.insert("a".to_string(), 3);
    assert_eq!(m.len(), 2);
    assert_eq!(m.get("a"), Some(&3));
    assert_eq!(m.remove("a"), Some(3));
    assert_eq!(m.remove("a"), None);
    assert_eq!(m.get("a"), None);
    assert_eq!(m.get("b"), Some(&2));
    m.insert("c".to_string(), 4);
    assert_eq!(m.remove("b"), Some(2));
    assert_eq!(m.get("c"), Some(&4));
    assert_eq!(m.len(), 1);
}

#[test]
fn split_fields_as_str_split() {
    for line in ["a,b,,c", "", "x", ",", "ñandú,é,", LINES[0]] {
        let expected: Vec<&str> = line.split(",").collect();
        assert_eq!(split_fields(line), expected);
    }
}

#[test]
fn names_order_as_strings() {
    assert!(name_less("a", "b"));
    assert!(name_less("ab", "b"));
    assert!(name_less("", "a"));
    assert!(!name_less("a", "a"));
    assert!(!name_less("b", "ab"));
    assert!(name_less("Z", "a"));
    assert!(name_less("z", "é"));
    assert!(ranks_first(2, "b", 1, "a"));
    assert!(ranks_first(1, "a", 1, "b"));
    assert!(!ranks_first(1, "b", 1, "b"));
}

#[test]
fn process_killer_counts_kills_per_weapon() {
    let mut killers = NameMap::new();
    process_killer(&vec!["AKM", "alice"], &mut killers);
    process_killer(&vec!["AKM", "alice", "x"], &mut killers);
    process_killer(&vec!["M16", "alice"], &mut killers);
    process_killer(&vec!["M16", ""], &mut killers);
    process_killer(&vec!["M16"], &mut killers);
    process_killer(&vec![], &mut killers);
    let mut expected = HashMap::new();
    expected.insert(
        "alice".to_string(),
        (3, HashMap::from([("AKM".to_string(), 2), ("M16".to_string(), 1)])),
    );
    assert_eq!(killers_of(&killers), expected);
}

#[test]
fn process_weapon_counts_kills_and_distances() {
    let mut weapons = NameMap::new();
    process_weapon(&vec!["AKM", "alice"], Some(500), &mut weapons);
    process_weapon(&vec!["AKM"], None, &mut weapons);
    process_weapon(&vec!["AKM"], Some(250), &mut weapons);
    process_weapon(&vec![], Some(250), &mut weapons);
    let mut expected = HashMap::new();
    expected.insert(
        "AKM".to_string(),
        WeaponStats { deaths: 3, distance_total: 750, distance_count: 2 },
    );
    assert_eq!(stats_of(&weapons), expected);
}

#[test]
fn process_line_gathers_both_records() {
    let (killers, weapons) = gather(&[0, 1, 2, 3, 4, 5]);
    let mut expected_killers = HashMap::new();
    expected_killers.insert(
        "alice".to_string(),
        (3, HashMap::from([("AKM".to_string(), 2), ("M16".to_string(), 1)])),
    );
    expected_killers.insert("bob".to_string(), (1, HashMap::from([("AKM".to_string(), 1)])));
    expected_killers.insert("carol".to_string(), (1, HashMap::from([("M16".to_string(), 1)])));
    assert_eq!(killers_of(&killers), expected_killers);
    let mut expected_weapons = HashMap::new();
    expected_weapons
        .insert("AKM".to_string(), WeaponStats { deaths: 3, distance_total: 641, distance_count: 2 });
    expected_weapons
        .insert("M16".to_string(), WeaponStats { deaths: 2, distance_total: 250, distance_count: 1 });
    expected_weapons
        .insert("Punch".to_string(), WeaponStats { deaths: 1, distance_total: 0, distance_count: 0 });
    assert_eq!(stats_of(&weapons), expected_weapons);
}

#[test]
fn gathering_in_any_split_or_order_gives_the_same() {
    let (k_all, w_all) = gather(&[0, 1, 2, 3, 4, 5]);
    let first = gather(&[0, 1, 2]);
    let second = gather(&[3, 4, 5]);
    let (k_split, w_split) = merge(first, second);
    assert_eq!(killers_of(&k_split), killers_of(&k_all));
    assert_eq!(stats_of(&w_split), stats_of(&w_all));
    let (k_rev, w_rev) = gather(&[5, 4, 3, 2, 1, 0]);
    assert_eq!(killers_of(&k_rev), killers_of(&k_all));
    assert_eq!(stats_of(&w_rev), stats_of(&w_all));
}

#[test]
fn merge_is_commutative_and_associative() {
    let a = || gather(&[0, 3]);
    let b = || gather(&[1, 4]);
    let c = || gather(&[2, 5]);
    let ab = merge(a(), b());
    let ba = merge(b(), a());
    assert_eq!(killers_of(&ab.0), killers_of(&ba.0));
    assert_eq!(stats_of(&ab.1), stats_of(&ba.1));
    let left = merge(merge(a(), b()), c());
    let right = merge(a(), merge(b(), c()));
    assert_eq!(killers_of(&left.0), killers_of(&right.0));
    assert_eq!(stats_of(&left.1), stats_of(&right.1));
    let with_empty = merge(a(), (NameMap::new(), NameMap::new()));
    assert_eq!(killers_of(&with_empty.0), killers_of(&a().0));
    assert_eq!(stats_of(&with_empty.1), stats_of(&a().1));
}

#[test]
fn process_weapon_stats_shares_and_averages() {
    let mut stats = NameMap::new();
    stats.insert("A".to_string(), WeaponStats { deaths: 1, distance_total: 1005, distance_count: 2 });
    stats.insert("B".to_string(), WeaponStats { deaths: 2, distance_total: 0, distance_count: 0 });
    let weapons = process_weapon_stats(stats);
    let mut expected = HashMap::new();
    expected.insert(
        "A".to_string(),
        Weapon { deaths_percentage: Some(3333), average_distance: Some(503) },
    );
    expected
        .insert("B".to_string(), Weapon { deaths_percentage: Some(6667), average_distance: None });
    assert_eq!(weapons_of(&weapons), expected);
}

#[test]
fn process_weapon_stats_without_kills() {
    let mut stats = NameMap::new();
    stats.insert("A".to_string(), WeaponStats { deaths: 0, distance_total: 0, distance_count: 0 });
    let weapons = process_weapon_stats(stats);
    assert_eq!(
        weapons.get("A"),
        Some(&Weapon { deaths_percentage: None, average_distance: None })
    );
}

#[test]
fn top_weapons_ties_by_name_and_short_lists() {
    let mut weapons = NameMap::new();
    for name in ["c", "a", "b"] {
        weapons.insert(
            name.to_string(),
            Weapon { deaths_percentage: Some(1000), average_distance: None },
        );
    }
    weapons.insert("d".to_string(), Weapon { deaths_percentage: Some(500), average_distance: None });
    let top = get_top_weapons(weapons, 2);
    assert_eq!(weapon_names(&top), vec!["a".to_string(), "b".to_string()]);

    let mut few = NameMap::new();
    few.insert("x".to_string(), Weapon { deaths_percentage: None, average_distance: None });
    few.insert("y".to_string(), Weapon { deaths_percentage: None, average_distance: None });
    assert_eq!(weapon_names(&get_top_weapons(few, 10)), vec!["x".to_string(), "y".to_string()]);

    let mut undefined = NameMap::new();
    for name in ["z", "x", "y"] {
        undefined.insert(name.to_string(), Weapon { deaths_percentage: None, average_distance: None });
    }
    assert_eq!(weapon_names(&get_top_weapons(undefined, 1)), vec!["x".to_string()]);
    assert_eq!(get_top_weapons(NameMap::new(), 3).len(), 0);
}

#[test]
fn top_killers_ties_and_rounding() {
    let mut players = NameMap::new();
    players.insert("bob".to_string(), player(3, &[("a", 1), ("b", 2)]));
    players.insert("amy".to_string(), player(3, &[("x", 3)]));
    players.insert("cid".to_string(), player(8, &[("p", 1), ("q", 1), ("r", 1), ("s", 5)]));
    players.insert("dan".to_string(), player(1, &[]));
    let top = get_top_killers(players, 3);
    let mut expected = HashMap::new();
    expected.insert(
        "cid".to_string(),
        (8, HashMap::from([("s".to_string(), 6250), ("p".to_string(), 1250), ("q".to_string(), 1250)])),
    );
    expected.insert("amy".to_string(), (3, HashMap::from([("x".to_string(), 10000)])));
    expected.insert(
        "bob".to_string(),
        (3, HashMap::from([("a".to_string(), 3333), ("b".to_string(), 6667)])),
    );
    assert_eq!(killers_of(&top), expected);
}

#[test]
fn overflow_checks() {
    let mut a = NameMap::new();
    a.insert("x".to_string(), player(u32::MAX, &[]));
    let mut b = NameMap::new();
    b.insert("x".to_string(), player(1, &[]));
    assert!(!can_merge(&a, &b));
    let mut c = NameMap::new();
    c.insert("y".to_string(), player(1, &[]));
    assert!(can_merge(&a, &c));

    let mut s = NameMap::new();
    s.insert("A".to_string(), WeaponStats { deaths: u32::MAX, distance_total: 0, distance_count: 0 });
    assert!(kills_fit(&s));
    s.insert("B".to_string(), WeaponStats { deaths: 1, distance_total: 0, distance_count: 0 });
    assert!(!kills_fit(&s));
}

#[test]
fn output_from_gathered_records() {
    let (killers, weapons) = gather(&[0, 1, 2, 3, 4, 5]);
    let output = Output::from_records(killers, weapons);
    assert_eq!(output.padron, PADRON);
    assert_eq!(output.padron, 107585);
    assert_eq!(
        killer_names(&output.top_killers),
        vec!["alice".to_string(), "bob".to_string(), "carol".to_string()]
    );
    let alice = output.top_killers.get("alice").unwrap();
    assert_eq!(alice.deaths, 3);
    assert_eq!(
        counts(alice),
        HashMap::from([("AKM".to_string(), 6667), ("M16".to_string(), 3333)])
    );
    let mut expected = HashMap::new();
    expected.insert(
        "AKM".to_string(),
        Weapon { deaths_percentage: Some(5000), average_distance: Some(321) },
    );
    expected.insert(
        "M16".to_string(),
        Weapon { deaths_percentage: Some(3333), average_distance: Some(250) },
    );
    expected.insert(
        "Punch".to_string(),
        Weapon { deaths_percentage: Some(1667), average_distance: None },
    );
    assert_eq!(weapons_of(&output.top_weapons), expected);

    let empty = Output::empty();
    assert_eq!(empty.padron, PADRON);
    assert_eq!(empty.top_killers.len(), 0);
    assert_eq!(empty.top_weapons.len(), 0);
}

fn output_of(order: &[usize]) -> (HashMap<String, (u32, HashMap<String, u64>)>, HashMap<String, Weapon>) {
    let (killers, weapons) = gather(order);
    let output = Output::from_records(killers, weapons);
    (killers_of(&output.top_killers), weapons_of(&output.top_weapons))
}

#[test]
fn output_same_for_any_split_or_order() {
    let all = output_of(&[0, 1, 2, 3, 4, 5]);
    assert_eq!(output_of(&[5, 3, 1, 4, 2, 0]), all);
    let (k, w) = merge(gather(&[4, 0]), merge(gather(&[2, 5]), gather(&[3, 1])));
    let output = Output::from_records(k, w);
    assert_eq!((killers_of(&output.top_killers), weapons_of(&output.top_weapons)), all);
}

#[test]
fn top_killers_only_rank_the_leaders_weapons() {
    let mut players = NameMap::new();
    players.insert("ann".to_string(), player(5, &[("x", 4), ("y", 1)]));
    players.insert("zed".to_string(), player(0, &[("y", 1)]));
    let top = get_top_killers(players, 1);
    let mut expected = HashMap::new();
    expected.insert(
        "ann".to_string(),
        (5, HashMap::from([("x".to_string(), 8000), ("y".to_string(), 2000)])),
    );
    assert_eq!(killers_of(&top), expected);
}

#[test]
fn top_killers_with_no_kills_or_huge_counts() {
    let mut players = NameMap::new();
    players.insert("zed".to_string(), player(0, &[("b", 1), ("a", 2), ("c", 0), ("d", 5)]));
    players.insert("amy".to_string(), player(0, &[("b", 1), ("a", 2), ("d", 5), ("e", 4)]));
    players.insert("big".to_string(), player(1, &[("x", u64::MAX), ("y", 1)]));
    let top = killers_of(&get_top_killers(players, 3));
    assert_eq!(top.len(), 3);
    // An undefined share (no kills, no count) orders nothing: some three
    // weapons are kept, each with a share that is not a finite number.
    let (deaths, zed) = &top["zed"];
    assert_eq!(*deaths, 0);
    assert_eq!(zed.len(), 3);
    assert!(zed.iter().all(|(w, s)| ["a", "b", "c", "d"].contains(&w.as_str()) && *s == u64::MAX));
    // Infinite shares tie, and the names decide.
    assert_eq!(
        top["amy"],
        (0, HashMap::from([("a".to_string(), u64::MAX), ("b".to_string(), u64::MAX), ("d".to_string(), u64::MAX)]))
    );
    assert_eq!(
        top["big"],
        (1, HashMap::from([("x".to_string(), u64::MAX), ("y".to_string(), 10000)]))
    );
}
#[test]
fn gathered_records_stay_valid() {
    let (killers, weapons) = gather(&[0, 1, 2, 3, 4, 5]);
    for (_, p) in killers.entries() {
        let counts: Vec<u64> = p.weapons_percentage.entries().iter().map(|(_, c)| *c).collect();
        assert!(p.deaths >= 1);
        assert!(counts.iter().all(|c| *c >= 1));
        assert_eq!(counts.iter().sum::<u64>(), p.deaths as u64);
    }
    for (_, s) in weapons.entries() {
        assert!(s.distance_count <= s.deaths as u64);
        assert!(s.distance_count > 0 || s.distance_total == 0);
    }
}

#[test]
fn top_weapons_with_room_for_all() {
    let (_, stats) = gather(&[0, 1, 2, 3, 4, 5]);
    let weapons = process_weapon_stats(stats);
    let all = weapons_of(&weapons);
    assert_eq!(weapons_of(&get_top_weapons(weapons, 3)), all);
}
