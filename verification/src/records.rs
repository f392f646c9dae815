//! The persisted record schema: the `(name, ac, hp)` triple that bulk import
//! and export exchange with the surrounding program, and its mappings to and
//! from the live character model. Export is lossy: it keeps `max` as `hp` and
//! drops `current`, `score` and `temp`. Import records carry no score, so one
//! is supplied separately per record.

use vstd::prelude::*;
use crate::character::Character;

verus! {

/// One persisted record: what the on-disk schema holds for one character.
pub struct JSONCharacter {
    pub name: String,
    pub ac: u8,
    pub hp: u16,
}

/// The record that exporting one character produces: `max` becomes `hp`;
/// `current`, `score` and `temp` are dropped.
pub open spec fn record_of(c: Character) -> JSONCharacter {
    JSONCharacter { name: c.name, ac: c.ac, hp: c.max }
}

/// The character that importing one record builds, given the separately
/// supplied score: full health (`current == max == hp`), no temporary buffer.
pub open spec fn char_of_record(r: JSONCharacter, score: u8) -> Character {
    Character { name: r.name, ac: r.ac, current: r.hp, max: r.hp, score, temp: 0 }
}

impl From<Character> for JSONCharacter {
    fn from(value: Character) -> (r: JSONCharacter) {
        JSONCharacter { name: value.name, ac: value.ac, hp: value.max }
    }
}

impl vstd::std_specs::convert::FromSpecImpl<Character> for JSONCharacter {
    open spec fn obeys_from_spec() -> bool {
        true
    }

    open spec fn from_spec(value: Character) -> JSONCharacter {
        record_of(value)
    }
}

impl Character {
    /// Build the character a record describes, with the score supplied
    /// out of band (the persisted schema does not hold one).
    pub fn from_record(rec: &JSONCharacter, score: u8) -> (c: Character)
        ensures
            c == char_of_record(*rec, score),
            c.wf(),
    {
        Character {
            name: rec.name.clone(),
            ac: rec.ac,
            current: rec.hp,
            max: rec.hp,
            score,
            temp: 0,
        }
    }
}

impl Clone for JSONCharacter {
    fn clone(&self) -> (r: JSONCharacter)
        ensures
            r == *self,
    {
        JSONCharacter { name: self.name.clone(), ac: self.ac, hp: self.hp }
    }
}

} // verus!
