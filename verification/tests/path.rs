use game_server::map::Point;
use game_server::path::astar;

fn rows(lines: &[&str]) -> Vec<Vec<char>> {
    lines.iter().map(|l| l.chars().collect()).collect()
}

#[test]
fn path_cost_on_an_open_map_is_the_sum_of_both_distances() {
    let map = rows(&["1000000000", "0000000000", "0000000000", "0000000000", "0000000000"]);
    assert_eq!(astar(&map, Point(0, 0), &Point(0, 0), 10), 0);
    assert_eq!(astar(&map, Point(0, 0), &Point(1, 0), 10), 1);
    assert_eq!(astar(&map, Point(0, 0), &Point(3, 2), 10), 5);
    assert_eq!(astar(&map, Point(0, 0), &Point(9, 4), 20), 13);
    assert_eq!(astar(&map, Point(4, 2), &Point(2, 1), 20), 3);
}

#[test]
fn path_goes_around_obstacles() {
    let map = rows(&["1R0", "000", "000"]);
    assert_eq!(astar(&map, Point(0, 0), &Point(2, 0), 10), 4);
    let wall = rows(&["1W000", "0W0T0", "0W0T0", "000T0"]);
    assert_eq!(astar(&wall, Point(0, 0), &Point(2, 0), 50), 8);
    assert_eq!(astar(&wall, Point(0, 0), &Point(4, 0), 50), 10);
}

#[test]
fn path_over_the_limit_is_no_path() {
    let map = rows(&["1R0", "000", "000"]);
    assert_eq!(astar(&map, Point(0, 0), &Point(2, 0), 4), 4);
    assert_eq!(astar(&map, Point(0, 0), &Point(2, 0), 3), -1);
    assert_eq!(astar(&map, Point(0, 0), &Point(1, 1), 1), -1);
    assert_eq!(astar(&map, Point(0, 0), &Point(0, 0), 0), 0);
}

#[test]
fn no_path_into_obstacles_markers_or_closed_rooms() {
    let map = rows(&["1R00", "RR00", "0002"]);
    assert_eq!(astar(&map, Point(0, 0), &Point(1, 0), 255), -1);
    assert_eq!(astar(&map, Point(0, 0), &Point(2, 0), 255), -1);
    assert_eq!(astar(&map, Point(0, 0), &Point(0, 2), 255), -1);
    assert_eq!(astar(&map, Point(3, 2), &Point(2, 2), 255), 1);
    assert_eq!(astar(&map, Point(2, 2), &Point(3, 2), 255), -1);
}

#[test]
fn no_path_off_the_grid_or_on_ragged_rows() {
    let map = rows(&["100", "000"]);
    assert_eq!(astar(&map, Point(0, 0), &Point(3, 0), 9), -1);
    assert_eq!(astar(&map, Point(0, 0), &Point(0, 2), 9), -1);
    assert_eq!(astar(&map, Point(0, 0), &Point(-1, 0), 9), -1);
    assert_eq!(astar(&map, Point(0, -1), &Point(0, 0), 9), -1);
    assert_eq!(astar(&map, Point(5, 5), &Point(0, 0), 9), -1);
    let ragged = rows(&["100", "00"]);
    assert_eq!(astar(&ragged, Point(0, 0), &Point(1, 0), 9), -1);
    assert_eq!(astar(&Vec::new(), Point(0, 0), &Point(0, 0), 9), -1);
}
