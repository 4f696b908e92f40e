use game_server::action_check::{
    aim, find_enemy, find_marker, move_marker, player_attack, reach_destination, set_cell, PlayerInfos,
};
use game_server::map::Point;
use game_server::response::GamePlayerInfos;

const OPEN: &str = "1000000000\n0000000000\n0000000000\n0000000000\n0000000002";

fn rows(lines: &[&str]) -> Vec<Vec<char>> {
    lines.iter().map(|l| l.chars().collect()).collect()
}

fn enemy(slot: &str, character: &str, stats: (u8, u8, u8, u8)) -> GamePlayerInfos {
    GamePlayerInfos { player_num: slot.to_string(), character: character.to_string(), stats }
}

#[test]
fn move_within_speed_moves_the_marker() {
    let mut map = OPEN.to_string();
    assert!(reach_destination(&mut map, "1".to_string(), Point(4, 0), 4));
    assert_eq!(map, "0000100000\n0000000000\n0000000000\n0000000000\n0000000002");
    assert!(reach_destination(&mut map, "1".to_string(), Point(2, 2), 4));
    assert_eq!(map, "0000000000\n0000000000\n0010000000\n0000000000\n0000000002");
    assert!(reach_destination(&mut map, "2".to_string(), Point(9, 1), 3));
    assert_eq!(map, "0000000000\n0000000002\n0010000000\n0000000000\n0000000000");
}

#[test]
fn move_beyond_speed_fails_and_changes_nothing() {
    let mut map = OPEN.to_string();
    assert!(!reach_destination(&mut map, "1".to_string(), Point(5, 0), 4));
    assert_eq!(map, OPEN);
    assert!(!reach_destination(&mut map, "1".to_string(), Point(2, 3), 4));
    assert_eq!(map, OPEN);
    assert!(!reach_destination(&mut map, "1".to_string(), Point(1, 0), 0));
    assert_eq!(map, OPEN);
}

#[test]
fn move_to_the_own_cell_costs_nothing() {
    let mut map = OPEN.to_string();
    assert!(reach_destination(&mut map, "1".to_string(), Point(0, 0), 0));
    assert_eq!(map, OPEN);
}

#[test]
fn move_off_the_grid_fails() {
    for dest in [Point(10, 0), Point(0, 5), Point(-1, 0), Point(0, -1), Point(i16::MAX, 0), Point(i16::MIN, 2)] {
        let mut map = OPEN.to_string();
        assert!(!reach_destination(&mut map, "1".to_string(), dest, 255));
        assert_eq!(map, OPEN);
    }
}

#[test]
fn move_onto_an_obstacle_or_the_other_marker_fails() {
    let start = "1R00000000\n0W00000000\n0T00000000\n0200000000\n0000000000";
    for dest in [Point(1, 0), Point(1, 1), Point(1, 2), Point(1, 3)] {
        let mut map = start.to_string();
        assert!(!reach_destination(&mut map, "1".to_string(), dest, 255));
        assert_eq!(map, start);
    }
}

#[test]
fn move_counts_the_way_around_obstacles() {
    let start = "1R0\n000\n000";
    let mut map = start.to_string();
    assert!(!reach_destination(&mut map, "1".to_string(), Point(2, 0), 3));
    assert_eq!(map, start);
    assert!(reach_destination(&mut map, "1".to_string(), Point(2, 0), 4));
    assert_eq!(map, "0R1\n000\n000");
}

#[test]
fn other_marker_blocks_the_way() {
    let start = "120\nRR0\n000";
    let mut map = start.to_string();
    assert!(!reach_destination(&mut map, "1".to_string(), Point(2, 0), 255));
    assert_eq!(map, start);
}

#[test]
fn move_needs_a_marker_a_slot_and_a_grid() {
    let mut map = "0000\n0000".to_string();
    assert!(!reach_destination(&mut map, "1".to_string(), Point(1, 0), 9));
    let mut map = "1000\n0000".to_string();
    assert!(!reach_destination(&mut map, "3".to_string(), Point(1, 0), 9));
    assert!(!reach_destination(&mut map, "0".to_string(), Point(1, 0), 9));
    assert!(!reach_destination(&mut map, "".to_string(), Point(1, 0), 9));
    assert!(!reach_destination(&mut map, "12".to_string(), Point(1, 0), 9));
    assert_eq!(map, "1000\n0000");
    let mut ragged = "1000\n000".to_string();
    assert!(!reach_destination(&mut ragged, "1".to_string(), Point(1, 0), 9));
    assert_eq!(ragged, "1000\n000");
    let mut empty = String::new();
    assert!(!reach_destination(&mut empty, "1".to_string(), Point(0, 0), 9));
}

#[test]
fn move_on_rows_moves_the_first_marker() {
    let mut map = rows(&["0010", "0000"]);
    assert!(move_marker(&mut map, '1', Point(3, 1), 2));
    assert_eq!(map, rows(&["0000", "0001"]));
    assert!(!move_marker(&mut map, '1', Point(0, 0), 3));
    assert_eq!(map, rows(&["0000", "0001"]));
    assert_eq!(find_marker(&map, '1'), Some((3, 1)));
    assert_eq!(find_marker(&map, '2'), None);
    assert_eq!(find_marker(&rows(&["0100", "1001"]), '1'), Some((1, 0)));
}

#[test]
fn set_cell_writes_one_cell() {
    let mut map = rows(&["000", "000"]);
    set_cell(&mut map, 2, 1, 'T');
    assert_eq!(map, rows(&["000", "00T"]));
}

#[test]
fn attack_in_range_takes_the_attack_power_off_the_hit_points() {
    let start = "0000000000\n0000000000\n0000000000\n0000000000\n0000120000";
    let mut map = start.to_string();
    let out = player_attack(
        &mut map,
        "1".to_string(),
        vec![enemy("2", "mag", (4, 80, 3, 2))],
        Point(5, 4),
        (10, 1),
    );
    assert_eq!(out, Some(("2".to_string(), 70)));
    assert_eq!(map, start);
    let out = player_attack(
        &mut map,
        "2".to_string(),
        vec![enemy("1", "bar", (10, 100, 4, 1))],
        Point(4, 4),
        (4, 2),
    );
    assert_eq!(out, Some(("1".to_string(), 96)));
    assert_eq!(map, start);
}

#[test]
fn attack_out_of_range_fails_and_changes_nothing() {
    let start = "1000020000\n0000000000\n0000000000\n0000000000\n0000000000";
    let mut map = start.to_string();
    let out = player_attack(
        &mut map,
        "1".to_string(),
        vec![enemy("2", "mag", (4, 80, 3, 2))],
        Point(5, 0),
        (10, 1),
    );
    assert_eq!(out, None);
    assert_eq!(map, start);
    let out = player_attack(
        &mut map,
        "1".to_string(),
        vec![enemy("2", "mag", (4, 80, 3, 2))],
        Point(5, 0),
        (10, 4),
    );
    assert_eq!(out, None);
    let out = player_attack(
        &mut map,
        "1".to_string(),
        vec![enemy("2", "mag", (4, 80, 3, 2))],
        Point(5, 0),
        (10, 5),
    );
    assert_eq!(out, Some(("2".to_string(), 70)));
}

#[test]
fn attack_distance_is_the_larger_of_both() {
    let start = "00000\n01000\n00000\n00020\n00000";
    let mut map = start.to_string();
    let foes = vec![enemy("2", "bow", (6, 70, 2, 6))];
    assert_eq!(player_attack(&mut map, "1".to_string(), foes.clone(), Point(3, 3), (6, 1)), None);
    assert_eq!(
        player_attack(&mut map, "1".to_string(), foes.clone(), Point(3, 3), (6, 2)),
        Some(("2".to_string(), 64))
    );
    let near = "00000\n01000\n00200\n00000\n00000";
    let mut map = near.to_string();
    assert_eq!(
        player_attack(&mut map, "1".to_string(), foes, Point(2, 2), (6, 1)),
        Some(("2".to_string(), 64))
    );
    assert_eq!(map, near);
}

#[test]
fn last_blow_takes_the_marker_off_the_map() {
    let start = "12000\n00000";
    let mut map = start.to_string();
    let out = player_attack(&mut map, "1".to_string(), vec![enemy("2", "mag", (4, 10, 3, 2))], Point(1, 0), (10, 1));
    assert_eq!(out, Some(("2".to_string(), 0)));
    assert_eq!(map, "10000\n00000");
    let mut map = start.to_string();
    let out = player_attack(&mut map, "1".to_string(), vec![enemy("2", "mag", (4, 3, 3, 2))], Point(1, 0), (10, 1));
    assert_eq!(out, Some(("2".to_string(), 0)));
    assert_eq!(map, "10000\n00000");
    let mut map = start.to_string();
    let out = player_attack(&mut map, "1".to_string(), vec![enemy("2", "mag", (4, 11, 3, 2))], Point(1, 0), (10, 1));
    assert_eq!(out, Some(("2".to_string(), 1)));
    assert_eq!(map, start);
}

#[test]
fn attack_needs_an_enemy_marker_on_the_target() {
    let start = "12R00\n00000";
    let foes = vec![enemy("2", "mag", (4, 80, 3, 2))];
    for target in [Point(0, 0), Point(2, 0), Point(0, 1), Point(5, 0), Point(0, 2), Point(-1, 0), Point(1, -1)] {
        let mut map = start.to_string();
        assert_eq!(player_attack(&mut map, "1".to_string(), foes.clone(), target, (10, 9)), None);
        assert_eq!(map, start);
    }
    let mut map = start.to_string();
    assert_eq!(player_attack(&mut map, "1".to_string(), Vec::new(), Point(1, 0), (10, 9)), None);
    assert_eq!(
        player_attack(&mut map, "1".to_string(), vec![enemy("1", "bar", (10, 100, 4, 1))], Point(1, 0), (10, 9)),
        None
    );
    assert_eq!(player_attack(&mut map, "3".to_string(), foes.clone(), Point(1, 0), (10, 9)), None);
    assert_eq!(player_attack(&mut map, "".to_string(), foes.clone(), Point(1, 0), (10, 9)), None);
    let mut gone = "02R00\n00000".to_string();
    assert_eq!(player_attack(&mut gone, "1".to_string(), foes, Point(1, 0), (10, 9)), None);
    assert_eq!(map, start);
}

#[test]
fn attack_hits_the_first_record_of_the_slot() {
    let mut map = "12".to_string();
    let foes = vec![enemy("x", "bow", (6, 70, 2, 6)), enemy("2", "mag", (4, 80, 3, 2)), enemy("2", "bar", (10, 100, 4, 1))];
    assert_eq!(find_enemy(&foes, '2'), Some(1));
    assert_eq!(find_enemy(&foes, '1'), None);
    assert_eq!(player_attack(&mut map, "1".to_string(), foes, Point(1, 0), (6, 1)), Some(("2".to_string(), 74)));
}

#[test]
fn aim_gives_the_marker_that_is_hit() {
    let map = rows(&["1002", "0000"]);
    assert_eq!(aim(&map, '1', Point(3, 0), 3), Some('2'));
    assert_eq!(aim(&map, '1', Point(3, 0), 2), None);
    assert_eq!(aim(&map, '2', Point(0, 0), 3), Some('1'));
    assert_eq!(aim(&map, '1', Point(1, 0), 3), None);
    assert_eq!(aim(&map, 'R', Point(3, 0), 3), None);
}

#[test]
fn player_infos_clone_keeps_the_fields() {
    let p = PlayerInfos { pseudo: "alice".to_string(), hosting: 1 };
    let q = p.clone();
    assert_eq!(q.pseudo, "alice");
    assert_eq!(q.hosting, 1);
}
