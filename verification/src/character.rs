//! The character model: one combatant's identity, defenses and hit-point
//! pool, together with the damage / heal / temporary-hit-point arithmetic.

use vstd::prelude::*;

verus! {

/// One combatant. `current` never exceeds `max` (see [`Character::wf`]);
/// `temp` is a depletable buffer consumed by damage before `current` is.
pub struct Character {
    /// Lookup key for all targeted operations.
    pub name: String,
    /// Armor class, stored but never computed upon.
    pub ac: u8,
    /// Current hit points; saturates at zero, never exceeds `max`.
    pub current: u16,
    /// Hit-point ceiling, fixed at creation.
    pub max: u16,
    /// Initiative score; higher acts first.
    pub score: u8,
    /// Temporary hit points; overwritten by each grant, not stacked.
    pub temp: u16,
}

impl Character {
    /// Well-formedness: current hit points never exceed the ceiling.
    pub open spec fn wf(self) -> bool {
        self.current <= self.max
    }

    /// The character after taking `amount` damage: temporary hit points
    /// absorb first, the remainder comes off `current`, floored at zero.
    pub open spec fn spec_damage(self, amount: u16) -> Character {
        if self.temp > amount {
            Character { temp: (self.temp - amount) as u16, ..self }
        } else {
            let spill = amount - self.temp;
            Character {
                temp: 0,
                current: if self.current >= spill { (self.current - spill) as u16 } else { 0 },
                ..self
            }
        }
    }

    /// The character after healing `amount`: added to `current`, clamped at
    /// `max`, with the temporary buffer untouched.
    pub open spec fn spec_heal(self, amount: u16) -> Character {
        Character {
            current: if self.current + amount <= self.max {
                (self.current + amount) as u16
            } else {
                self.max
            },
            ..self
        }
    }

    /// The character after a temporary-hit-point grant: the buffer is
    /// overwritten with `amount`, everything else is untouched.
    pub open spec fn spec_grant_temp(self, amount: u16) -> Character {
        Character { temp: amount, ..self }
    }

    pub fn new(name: String, ac: u8, max: u16, score: u8) -> (c: Character)
        ensures
            c.name == name,
            c.ac == ac,
            c.current == max,
            c.max == max,
            c.score == score,
            c.temp == 0,
            c.wf(),
    {
        Character { name, ac, current: max, max, score, temp: 0 }
    }

    /// Deal `amount` damage: the temporary buffer absorbs first; whatever it
    /// cannot absorb is subtracted from `current`, which floors at zero.
    pub fn damage(&mut self, amount: u16)
        ensures
            *final(self) == old(self).spec_damage(amount),
            old(self).wf() ==> final(self).wf(),
    {
        if self.temp > amount {
            self.temp = self.temp - amount;
            return ;
        }
        let spill = amount - self.temp;
        self.temp = 0;
        if self.current < spill {
            self.current = 0;
            return ;
        }
        self.current = self.current - spill;
    }

    /// Heal `amount`: added to `current` and clamped at `max`. Healing never
    /// restores or interacts with temporary hit points.
    pub fn heal(&mut self, amount: u16)
        requires
            old(self).wf(),
        ensures
            *final(self) == old(self).spec_heal(amount),
            final(self).wf(),
    {
        if amount >= self.max - self.current {
            self.current = self.max;
        } else {
            self.current = self.current + amount;
        }
    }

    /// Overwrite the temporary-hit-point buffer with `amount` (not additive).
    pub fn grant_temp(&mut self, amount: u16)
        ensures
            *final(self) == old(self).spec_grant_temp(amount),
            old(self).wf() ==> final(self).wf(),
    {
        self.temp = amount;
    }
}

impl Clone for Character {
    fn clone(&self) -> (c: Character)
        ensures
            c == *self,
    {
        Character {
            name: self.name.clone(),
            ac: self.ac,
            current: self.current,
            max: self.max,
            score: self.score,
            temp: self.temp,
        }
    }
}

} // verus!
