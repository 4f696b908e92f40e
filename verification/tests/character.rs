use game_server::character::{Character, CharacterClass};

#[test]
fn class_tags_name_their_classes() {
    assert_eq!(CharacterClass::new("bar"), Some(CharacterClass::Barbarian));
    assert_eq!(CharacterClass::new("bow"), Some(CharacterClass::Bowman));
    assert_eq!(CharacterClass::new("mag"), Some(CharacterClass::Magician));
    assert_eq!(CharacterClass::new("Bar"), None);
    assert_eq!(CharacterClass::new(""), None);
    assert_eq!(CharacterClass::new("bard"), None);
}

#[test]
fn class_statistics_are_the_table() {
    assert_eq!(CharacterClass::Bowman.get_stats(), (6, 70, 2, 6));
    assert_eq!(CharacterClass::Barbarian.get_stats(), (10, 100, 4, 1));
    assert_eq!(CharacterClass::Magician.get_stats(), (4, 80, 3, 2));
}

#[test]
fn character_takes_the_statistics_of_its_class() {
    let c = Character::new(CharacterClass::Magician);
    assert_eq!((c.atk, c.hp, c.ms, c.rng), (4, 80, 3, 2));
    assert_eq!(c.class, CharacterClass::Magician);
    let b = Character::from_str("bar").unwrap();
    assert_eq!((b.atk, b.hp, b.ms, b.rng), (10, 100, 4, 1));
    assert_eq!(b.class, CharacterClass::Barbarian);
    assert!(Character::from_str("elf").is_none());
}

#[test]
fn class_tag_round_trip() {
    for class in [CharacterClass::Bowman, CharacterClass::Barbarian, CharacterClass::Magician] {
        assert_eq!(CharacterClass::new(&class.tag()), Some(class));
    }
}
