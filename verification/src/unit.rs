//! The unit data model and the pure combat-resolution and movement-range
//! rules. Nothing here touches the world: committing an [`AttackResult`] is
//! the caller's responsibility.

use vstd::prelude::*;

verus! {

/// A combat unit. All attributes are integers; `remaining_attacks` and
/// `remaining_range` are the per-round budgets that [`crate::session`]
/// resets on round rollover.
#[derive(Clone, Copy, PartialEq, Eq, Structural, Debug)]
pub struct Unit {
    pub integrity: i32,
    pub damage: i32,
    pub max_attack_range: i32,
    pub min_attack_range: i32,
    pub armor: i32,
    pub mobility: i32,
    pub remaining_range: i32,
    pub remaining_attacks: i32,
}

/// The outcome of a resolved attack: the damage actually dealt and the two
/// updated units. A pure value — the caller commits it to the world.
#[derive(Clone, Copy, PartialEq, Eq, Structural, Debug)]
pub struct AttackResult {
    pub actual_damage: i32,
    pub attacker: Unit,
    pub defender: Unit,
}

#[derive(Clone, Copy, PartialEq, Eq, Structural, Debug)]
pub enum AttackError {
    NoAttacksLeft,
}

#[derive(Clone, Copy, PartialEq, Eq, Structural, Debug)]
pub enum CanMove {
    Yes(i32),
    No,
}

/// The damage an attack deals: attacker's damage less the defender's armor,
/// deliberately not clamped at zero.
pub open spec fn spec_attack_damage(attacker: Unit, defender: Unit) -> int {
    attacker.damage - defender.armor
}

/// Both subtractions of the damage formula stay inside `i32`.
pub open spec fn attack_fits(attacker: Unit, defender: Unit) -> bool {
    &&& i32::MIN <= spec_attack_damage(attacker, defender) <= i32::MAX
    &&& i32::MIN <= defender.integrity - spec_attack_damage(attacker, defender) <= i32::MAX
}

impl Unit {
    pub fn new(
        integrity: i32,
        damage: i32,
        max_attack_range: i32,
        min_attack_range: i32,
        armor: i32,
        mobility: i32,
        remaining_range: i32,
        remaining_attacks: i32,
    ) -> (unit: Unit)
        ensures
            unit == (Unit {
                integrity,
                damage,
                max_attack_range,
                min_attack_range,
                armor,
                mobility,
                remaining_range,
                remaining_attacks,
            }),
    {
        Unit {
            integrity,
            damage,
            max_attack_range,
            min_attack_range,
            armor,
            mobility,
            remaining_range,
            remaining_attacks,
        }
    }

    /// Resolves an attack of `self` against `defender`.
    ///
    /// Fails with `NoAttacksLeft` exactly when the attacker has no attack
    /// budget left; otherwise deals `damage − armor` (unclamped) to the
    /// defender's integrity, zeroes the attacker's mobility and spends one
    /// attack, carrying every other field of both units through unchanged.
    pub fn attack(&self, defender: &Unit) -> (result: Result<AttackResult, AttackError>)
        requires
            self.remaining_attacks > 0 ==> attack_fits(*self, *defender),
        ensures
            result is Ok <==> self.remaining_attacks > 0,
            result is Err <==> self.remaining_attacks <= 0,
            result matches Err(e) ==> e == AttackError::NoAttacksLeft,
            result matches Ok(res) ==> {
                &&& res.actual_damage == spec_attack_damage(*self, *defender)
                &&& res.attacker.mobility == 0
                &&& res.attacker.remaining_attacks == self.remaining_attacks - 1
                &&& res.attacker.integrity == self.integrity
                &&& res.attacker.damage == self.damage
                &&& res.attacker.max_attack_range == self.max_attack_range
                &&& res.attacker.min_attack_range == self.min_attack_range
                &&& res.attacker.armor == self.armor
                &&& res.attacker.remaining_range == self.remaining_range
                &&& res.defender.integrity == defender.integrity - spec_attack_damage(
                    *self,
                    *defender,
                )
                &&& res.defender.damage == defender.damage
                &&& res.defender.max_attack_range == defender.max_attack_range
                &&& res.defender.min_attack_range == defender.min_attack_range
                &&& res.defender.armor == defender.armor
                &&& res.defender.mobility == defender.mobility
                &&& res.defender.remaining_range == defender.remaining_range
                &&& res.defender.remaining_attacks == defender.remaining_attacks
            },
    {
        if self.remaining_attacks <= 0 {
            return Err(AttackError::NoAttacksLeft);
        }
        let actual_damage = self.damage - defender.armor;

        let mut attacker = *self;
        let mut defender = *defender;
        defender.integrity = defender.integrity - actual_damage;
        attacker.mobility = 0;
        attacker.remaining_attacks = attacker.remaining_attacks - 1;
        Ok(AttackResult { actual_damage, attacker, defender })
    }

    /// Whether the unit can cover `distance` with its remaining movement
    /// budget: `Yes` with the budget that would be left iff the distance
    /// does not exceed it. Never mutates the unit.
    pub fn can_move(&self, distance: i32) -> (result: CanMove)
        requires
            0 <= distance,
        ensures
            result matches CanMove::Yes(rem) <==> distance <= self.remaining_range,
            result matches CanMove::Yes(rem) ==> rem == self.remaining_range - distance,
            result is No <==> distance > self.remaining_range,
    {
        if self.remaining_range >= distance {
            CanMove::Yes(self.remaining_range - distance)
        } else {
            CanMove::No
        }
    }
}

} // verus!
