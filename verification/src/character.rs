//! Character identity and kind.

use vstd::prelude::*;
use vstd::string::StringExecFns;

verus! {

/// A character's unique number.
#[derive(Clone, Copy, Debug, PartialEq, Eq, Hash, Structural)]
pub struct CharacterId(pub u64);

/// The kind of unit a character is.
#[derive(Clone, Copy, Debug, PartialEq, Eq, Hash, Structural)]
pub enum CharacterType {
    Infantry,
    Archer,
    Mage,
    Knight,
    Custom(u32),
}

impl Default for CharacterType {
    fn default() -> (t: Self)
        ensures
            t == CharacterType::Infantry,
    {
        CharacterType::Infantry
    }
}

/// The side a unit fights for.
#[derive(Clone, Copy, Debug, PartialEq, Eq, Hash, Structural)]
pub enum Faction {
    Player,
    Enemy,
    Neutral,
}

/// A character's identity: number, name and kind.
#[derive(Clone, Debug)]
pub struct Character {
    pub id: CharacterId,
    pub name: String,
    pub character_type: CharacterType,
}

impl Character {
    /// A character with the given number, name and kind.
    pub fn new(id: u64, name: &str, character_type: CharacterType) -> (c: Self)
        ensures
            c.id == CharacterId(id),
            c.name@ == name@,
            c.character_type == character_type,
    {
        Character { id: CharacterId(id), name: name.to_owned(), character_type }
    }
}

/// The kind a character definition's type name stands for: `Infantry`,
/// `Archer`, `Mage` or `Knight` (exact spelling); anything else is infantry.
pub open spec fn character_type_of_name(name: Seq<char>) -> CharacterType {
    if name == "Archer"@ {
        CharacterType::Archer
    } else if name == "Mage"@ {
        CharacterType::Mage
    } else if name == "Knight"@ {
        CharacterType::Knight
    } else {
        CharacterType::Infantry
    }
}

/// The kind a character definition's type name stands for: `Infantry`,
/// `Archer`, `Mage` or `Knight` (exact spelling); anything else is infantry.
pub fn character_type_from_name(name: &str) -> (t: CharacterType)
    ensures
        t == character_type_of_name(name@),
{
    let owned = name.to_owned();
    if owned == String::from_str("Infantry") {
        proof {
            reveal_strlit("Infantry");
            reveal_strlit("Archer");
            reveal_strlit("Mage");
            reveal_strlit("Knight");
            assert(name@ != "Archer"@ && name@ != "Mage"@ && name@ != "Knight"@) by {
                assert(name@[0] != "Archer"@[0]);
                assert(name@[0] != "Mage"@[0]);
                assert(name@[0] != "Knight"@[0]);
            }
        }
        CharacterType::Infantry
    } else if owned == String::from_str("Archer") {
        CharacterType::Archer
    } else if owned == String::from_str("Mage") {
        CharacterType::Mage
    } else if owned == String::from_str("Knight") {
        CharacterType::Knight
    } else {
        CharacterType::Infantry
    }
}

/// Whether a character was moving in the previous frame.
#[derive(Clone, Copy, Debug, PartialEq, Eq, Structural)]
pub struct PreviousCharacterState {
    pub was_moving: bool,
}

impl Default for PreviousCharacterState {
    fn default() -> (s: Self)
        ensures
            !s.was_moving,
    {
        PreviousCharacterState { was_moving: false }
    }
}

} // verus!
