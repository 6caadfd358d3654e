use std::collections::HashMap;

use fork_join::name_map::NameMap;
use fork_join::player::Player;
use fork_join::utils::{get_top_killers, get_top_weapons, merge_killers, merge_weapons_stats};
use fork_join::weapon::{Weapon, WeaponStats};

/// A share or an average in hundredths, as the figure it stands for.
fn figure(hundredths: u64) -> f64 {
    hundredths as f64 / 100.0
}

/// Hundredths of a figure given with at most two decimals.
fn hundredths(x: f64) -> u64 {
    (x * 100.0).round() as u64
}

fn player(deaths: u32, weapons: &[(&str, f64)]) -> Player {
    let mut map = NameMap::new();
    for (name, count) in weapons {
        map.insert(name.to_string(), *count as u64);
    }
    Player { deaths, weapons_percentage: map }
}

fn weapon(deaths_percentage: f64, average_distance: f64) -> Weapon {
    Weapon {
        deaths_percentage: Some(hundredths(deaths_percentage)),
        average_distance: Some(hundredths(average_distance)),
    }
}

fn stats(deaths: u32, distance: f64, count: f64) -> WeaponStats {
    WeaponStats { deaths, distance_total: hundredths(distance), distance_count: count as u64 }
}

fn players_as_figures(map: &NameMap<Player>) -> HashMap<String, (u32, HashMap<String, f64>)> {
    map.entries()
        .iter()
        .map(|(name, p)| {
            let weapons = p
                .weapons_percentage
                .entries()
                .iter()
                .map(|(w, c)| (w.clone(), figure(*c)))
                .collect();
            (name.clone(), (p.deaths, weapons))
        })
        .collect()
}

fn players_as_counts(map: &NameMap<Player>) -> HashMap<String, (u32, HashMap<String, f64>)> {
    map.entries()
        .iter()
        .map(|(name, p)| {
            let weapons =
                p.weapons_percentage.entries().iter().map(|(w, c)| (w.clone(), *c as f64)).collect();
            (name.clone(), (p.deaths, weapons))
        })
        .collect()
}

fn expected_players(
    players: &[(&str, u32, &[(&str, f64)])],
) -> HashMap<String, (u32, HashMap<String, f64>)> {
    players
        .iter()
        .map(|(name, deaths, weapons)| {
            (
                name.to_string(),
                (*deaths, weapons.iter().map(|(w, x)| (w.to_string(), *x)).collect()),
            )
        })
        .collect()
}

fn weapons_of(map: &NameMap<Weapon>) -> HashMap<String, Weapon> {
    map.entries().iter().map(|(k, v)| (k.clone(), *v)).collect()
}

fn stats_of(map: &NameMap<WeaponStats>) -> HashMap<String, WeaponStats> {
    map.entries().iter().map(|(k, v)| (k.clone(), *v)).collect()
}

// Verify that the top of weapons is as expected
#[test]
fn test_get_top_weapons() {
    let weapon1 = weapon(45.0, 100.0);
    let weapon2 = weapon(30.0, 150.0);
    let weapon3 = weapon(60.0, 200.0);
    let weapon4 = weapon(25.0, 250.0);

    let mut weapons = NameMap::new();
    weapons.insert("weapon1".to_string(), weapon1);
    weapons.insert("weapon2".to_string(), weapon2);
    weapons.insert("weapon3".to_string(), weapon3);
    weapons.insert("weapon4".to_string(), weapon4);

    let result = get_top_weapons(weapons, 2);

    let mut expected = HashMap::new();
    expected.insert("weapon3".to_string(), weapon3);
    expected.insert("weapon1".to_string(), weapon1);

    assert_eq!(weapons_of(&result), expected);
}

// Verify that the top of killers is as expected
#[test]
fn test_get_top_killers() {
    let player1 = player(
        100,
        &[("weapons11", 30.0), ("weapons12", 5.0), ("weapons13", 60.0), ("weapons14", 5.0)],
    );
    let player2 = player(80, &[("weapons21", 40.0), ("weapons22", 30.0), ("weapons23", 10.0)]);
    let player3 = player(120, &[("weapons31", 80.0), ("weapons32", 40.0)]);

    let mut players = NameMap::new();
    players.insert("player1".to_string(), player1);
    players.insert("player2".to_string(), player2);
    players.insert("player3".to_string(), player3);

    let result = get_top_killers(players, 2);

    let expected = expected_players(&[
        ("player1", 100, &[("weapons11", 30.0), ("weapons12", 5.0), ("weapons13", 60.0)]),
        ("player3", 120, &[("weapons31", 66.67), ("weapons32", 33.33)]),
    ]);

    assert_eq!(players_as_figures(&result), expected);
}

// Verify that the merge between weapons is as expected
#[test]
fn test_merge_killers() {
    let mut killers1 = NameMap::new();
    killers1.insert("player1".to_string(), player(100, &[("knife", 30.0), ("pistol", 70.0)]));
    killers1.insert("player2".to_string(), player(80, &[("rifle", 80.0)]));

    let mut killers2 = NameMap::new();
    killers2.insert("player1".to_string(), player(100, &[("knife", 30.0), ("pistol", 70.0)]));
    killers2.insert("player3".to_string(), player(50, &[("pistol", 50.0)]));

    merge_killers(&mut killers1, killers2);

    let expected = expected_players(&[
        ("player1", 200, &[("knife", 60.0), ("pistol", 140.0)]),
        ("player2", 80, &[("rifle", 80.0)]),
        ("player3", 50, &[("pistol", 50.0)]),
    ]);

    assert_eq!(players_as_counts(&killers1), expected);
}

// Verify that the merge between weapons is as expected
#[test]
fn test_merge_weapons() {
    let mut result = NameMap::new();
    result.insert("weapon1".to_string(), stats(10, 10.0, 10.0));

    let mut weapon1 = NameMap::new();
    weapon1.insert("weapon1".to_string(), stats(10, 10.0, 10.0));

    let mut weapon2 = NameMap::new();
    weapon2.insert("weapon2".to_string(), stats(10, 10.0, 10.0));

    let mut weapon3 = NameMap::new();
    weapon3.insert("weapon3".to_string(), stats(10, 10.0, 10.0));

    merge_weapons_stats(&mut result, weapon1);
    merge_weapons_stats(&mut result, weapon2);
    merge_weapons_stats(&mut result, weapon3);

    let mut expected = HashMap::new();
    expected.insert("weapon1".to_string(), stats(20, 20.0, 20.0));
    expected.insert("weapon2".to_string(), stats(10, 10.0, 10.0));
    expected.insert("weapon3".to_string(), stats(10, 10.0, 10.0));

    assert_eq!(stats_of(&result), expected);
}
