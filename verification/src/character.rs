//! The character classes and their fixed statistics.

use vstd::prelude::*;
use crate::text::same_text;

verus! {

/// The playable character classes.
#[derive(Clone, Copy, Debug, PartialEq, Eq, Structural)]
pub enum CharacterClass {
    Bowman,
    Barbarian,
    Magician,
}

/// The class a three-letter tag names, if it names one.
pub open spec fn class_of_tag(tag: Seq<char>) -> Option<CharacterClass> {
    if tag == seq!['b', 'a', 'r'] {
        Some(CharacterClass::Barbarian)
    } else if tag == seq!['b', 'o', 'w'] {
        Some(CharacterClass::Bowman)
    } else if tag == seq!['m', 'a', 'g'] {
        Some(CharacterClass::Magician)
    } else {
        None
    }
}

impl CharacterClass {
    /// Attack, hit points, move speed and range of the class, in this order.
    pub open spec fn spec_stats(self) -> (u8, u8, u8, u8) {
        match self {
            CharacterClass::Bowman => (6u8, 70u8, 2u8, 6u8),
            CharacterClass::Barbarian => (10u8, 100u8, 4u8, 1u8),
            CharacterClass::Magician => (4u8, 80u8, 3u8, 2u8),
        }
    }

    /// The tag under which the class travels.
    pub open spec fn spec_tag(self) -> Seq<char> {
        match self {
            CharacterClass::Bowman => seq!['b', 'o', 'w'],
            CharacterClass::Barbarian => seq!['b', 'a', 'r'],
            CharacterClass::Magician => seq!['m', 'a', 'g'],
        }
    }

    /// The class that `class_str` names: `"bar"`, `"bow"` or `"mag"`.
    pub fn new(class_str: &str) -> (class: Option<Self>)
        ensures
            class == class_of_tag(class_str@),
    {
        proof {
            reveal_strlit("bar");
            reveal_strlit("bow");
            reveal_strlit("mag");
            assert("bar"@ =~= seq!['b', 'a', 'r']);
            assert("bow"@ =~= seq!['b', 'o', 'w']);
            assert("mag"@ =~= seq!['m', 'a', 'g']);
        }
        if same_text(class_str, "bar") {
            Some(CharacterClass::Barbarian)
        } else if same_text(class_str, "bow") {
            Some(CharacterClass::Bowman)
        } else if same_text(class_str, "mag") {
            Some(CharacterClass::Magician)
        } else {
            None
        }
    }

    /// Attack, hit points, move speed and range of the class.
    pub fn get_stats(&self) -> (stats: (u8, u8, u8, u8))
        ensures
            stats == self.spec_stats(),
    {
        match self {
            CharacterClass::Bowman => (6, 70, 2, 6),
            CharacterClass::Barbarian => (10, 100, 4, 1),
            CharacterClass::Magician => (4, 80, 3, 2),
        }
    }

    /// The tag of the class, as a string.
    pub fn tag(&self) -> (tag: String)
        ensures
            tag@ == self.spec_tag(),
            class_of_tag(tag@) == Some(*self),
    {
        proof {
            reveal_strlit("bar");
            reveal_strlit("bow");
            reveal_strlit("mag");
            assert("bar"@ =~= seq!['b', 'a', 'r']);
            assert("bow"@ =~= seq!['b', 'o', 'w']);
            assert("mag"@ =~= seq!['m', 'a', 'g']);
        }
        match self {
            CharacterClass::Bowman => "bow".to_owned(),
            CharacterClass::Barbarian => "bar".to_owned(),
            CharacterClass::Magician => "mag".to_owned(),
        }
    }
}

/// A character as it stands in a game: the statistics it started with, by class.
#[derive(Clone, Copy, Debug, PartialEq, Eq, Structural)]
pub struct Character {
    /// Attack damage.
    pub atk: u8,
    /// Hit points.
    pub hp: u8,
    /// Move speed.
    pub ms: u8,
    /// Attack range.
    pub rng: u8,
    /// Character class.
    pub class: CharacterClass,
}

impl Character {
    /// The character of a class, as the statistics table gives it.
    pub open spec fn of_class(class: CharacterClass) -> Character {
        Character {
            atk: class.spec_stats().0,
            hp: class.spec_stats().1,
            ms: class.spec_stats().2,
            rng: class.spec_stats().3,
            class,
        }
    }

    /// A fresh character of the given class.
    pub fn new(class: CharacterClass) -> (character: Self)
        ensures
            character == Character::of_class(class),
    {
        let stats = class.get_stats();
        Character { atk: stats.0, hp: stats.1, ms: stats.2, rng: stats.3, class }
    }

    /// A fresh character of the class that `character_str` names, if it names one.
    pub fn from_str(character_str: &str) -> (character: Option<Character>)
        ensures
            character == match class_of_tag(character_str@) {
                Some(class) => Some(Character::of_class(class)),
                None => None,
            },
    {
        match CharacterClass::new(character_str) {
            Some(class) => Some(Character::new(class)),
            None => None,
        }
    }
}

/// The tag of a class names that class and no other.
pub proof fn lemma_tag_names_class(class: CharacterClass)
    ensures
        class_of_tag(class.spec_tag()) == Some(class),
{
    assert(seq!['b', 'o', 'w'][1] == 'o');
    assert(seq!['b', 'a', 'r'][1] == 'a');
    assert(seq!['m', 'a', 'g'][0] == 'm');
}

} // verus!
