use game_server::map::{
    build_map, check_fresh_map, check_grid, generate_random_map, map_string_to_vec,
    map_vec_to_string, random_grid, GameDataType, Point, Slot,
};
use game_server::text::{all_alphanumeric, chars_of, same_text};

fn rows(lines: &[&str]) -> Vec<Vec<char>> {
    lines.iter().map(|l| l.chars().collect()).collect()
}

#[test]
fn text_splits_into_rows() {
    assert_eq!(map_string_to_vec("10R\n0W2"), rows(&["10R", "0W2"]));
    assert_eq!(map_string_to_vec("abc"), rows(&["abc"]));
    assert_eq!(map_string_to_vec(""), Vec::<Vec<char>>::new());
}

#[test]
fn text_ending_in_newline_has_no_empty_last_row() {
    assert_eq!(map_string_to_vec("10\n02\n"), rows(&["10", "02"]));
    assert_eq!(map_string_to_vec("\n"), rows(&[""]));
    assert_eq!(map_string_to_vec("a\n\nb"), rows(&["a", "", "b"]));
}

#[test]
fn rows_join_with_newlines() {
    assert_eq!(map_vec_to_string(rows(&["10R", "0W2"])), "10R\n0W2");
    assert_eq!(map_vec_to_string(rows(&["T"])), "T");
    assert_eq!(map_vec_to_string(Vec::new()), "");
    assert_eq!(map_vec_to_string(rows(&["", "a"])), "\na");
}

#[test]
fn rows_survive_the_text_form() {
    let grid = rows(&["1000000000", "0RWT000000", "0000000000", "000000TTT0", "0000000002"]);
    let text = map_vec_to_string(grid.clone());
    assert_eq!(text, "1000000000\n0RWT000000\n0000000000\n000000TTT0\n0000000002");
    assert_eq!(map_string_to_vec(&text), grid);
}

#[test]
fn grid_check_wants_equal_rows() {
    assert!(check_grid(&rows(&["000", "000"])));
    assert!(check_grid(&rows(&["0"])));
    assert!(!check_grid(&rows(&["000", "00"])));
    assert!(!check_grid(&rows(&[""])));
    assert!(!check_grid(&Vec::new()));
}

#[test]
fn draws_fill_the_inner_rows_in_reading_order() {
    let draws: Vec<usize> = vec![0, 1, 2, 3, 3, 2, 1, 0, 7];
    let map = build_map(5, 3, &draws);
    assert_eq!(map, rows(&["000", "0RW", "TTW", "R00", "000"]));
}

#[test]
fn missing_draws_leave_cells_empty() {
    let draws: Vec<usize> = vec![1];
    assert_eq!(build_map(3, 2, &draws), rows(&["00", "R0", "00"]));
    assert_eq!(build_map(1, 4, &draws), rows(&["0000"]));
    assert_eq!(build_map(2, 2, &draws), rows(&["00", "00"]));
    assert_eq!(build_map(0, 2, &draws), Vec::<Vec<char>>::new());
}

#[test]
fn fresh_map_check() {
    assert!(check_fresh_map(&rows(&["000", "RWT", "000"]), 3, 3));
    assert!(!check_fresh_map(&rows(&["000", "RWT", "000"]), 3, 4));
    assert!(!check_fresh_map(&rows(&["0R0", "000", "000"]), 3, 3));
    assert!(!check_fresh_map(&rows(&["000", "000", "00T"]), 3, 3));
    assert!(!check_fresh_map(&rows(&["000", "010", "000"]), 3, 3));
    assert!(!check_fresh_map(&rows(&["000", "0x0", "000"]), 3, 3));
}

#[test]
fn random_map_is_fresh() {
    for _ in 0..20 {
        let grid = random_grid(5, 10);
        assert!(check_fresh_map(&grid, 5, 10));
        let text = generate_random_map(5, 10);
        assert_eq!(text.len(), 5 * 10 + 4);
        assert!(!text.ends_with('\n'));
        assert_eq!(text.split('\n').count(), 5);
        assert!(text.split('\n').all(|row| row.chars().count() == 10));
        assert_eq!(map_vec_to_string(map_string_to_vec(&text)), text);
        let parsed = map_string_to_vec(&text);
        assert!(check_fresh_map(&parsed, 5, 10));
        assert!(parsed[0].iter().all(|c| *c == '0'));
        assert!(parsed[4].iter().all(|c| *c == '0'));
        assert!(text.chars().all(|c| c == '0' || c == 'R' || c == 'W' || c == 'T' || c == '\n'));
    }
}

#[test]
fn slots_have_markers_labels_and_an_other() {
    assert_eq!(Slot::One.marker(), '1');
    assert_eq!(Slot::Two.marker(), '2');
    assert_eq!(Slot::One.label(), "1");
    assert_eq!(Slot::Two.label(), "2");
    assert_eq!(Slot::One.other(), Slot::Two);
    assert_eq!(Slot::Two.other(), Slot::One);
    assert_eq!(Slot::of_marker('1'), Some(Slot::One));
    assert_eq!(Slot::of_marker('2'), Some(Slot::Two));
    assert_eq!(Slot::of_marker('0'), None);
}

#[test]
fn points_and_actions_compare_by_value() {
    assert_eq!(Point(3, 4), Point(3, 4));
    assert_ne!(Point(3, 4), Point(4, 3));
    assert_eq!(GameDataType::Movement(Point(1, 2)), GameDataType::Movement(Point(1, 2)));
    assert_ne!(GameDataType::Movement(Point(1, 2)), GameDataType::Attack(Point(1, 2)));
    assert_eq!(GameDataType::Skip, GameDataType::Skip);
}

#[test]
fn strings_and_characters_convert_both_ways() {
    assert_eq!(chars_of("a1\n"), vec!['a', '1', '\n']);
    assert_eq!(chars_of(""), Vec::<char>::new());
    assert_eq!(chars_of("xé2"), vec!['x', 'é', '2']);
    assert!(all_alphanumeric("xé2"));
    assert!(all_alphanumeric(""));
    assert!(!all_alphanumeric("x 2"));
    assert!(same_text("abc", "abc"));
    assert!(!same_text("abc", "abd"));
    assert!(!same_text("abc", "ab"));
}

#[test]
fn random_map_of_any_size_has_a_newline_between_rows_and_none_at_the_end() {
    for (height, width) in [(1u8, 1u8), (1, 7), (2, 3), (3, 1), (9, 4)] {
        let text = generate_random_map(height, width);
        assert_eq!(text.chars().count(), height as usize * width as usize + height as usize - 1);
        assert!(!text.ends_with('\n'));
        let rows = map_string_to_vec(&text);
        assert!(check_fresh_map(&rows, height, width));
        assert_eq!(map_vec_to_string(rows), text);
    }
}
