//! Entities that fight: a bear and the arithmetic of an attack.
use vstd::prelude::*;

verus! {

/// The kind of an entity.
#[derive(Clone, Copy, PartialEq, Eq, Structural, Debug)]
pub enum EntityClass {
    Animal,
}

/// The kind of a weapon.
#[derive(Clone, Copy, PartialEq, Eq, Structural, Debug)]
pub enum WeaponClass {
    Natural,
}

/// The strength of an entity's attack.
#[derive(Clone, Copy, PartialEq, Eq, Structural, Debug)]
pub struct Attack(pub u32);

/// What an entity can still take.
#[derive(Clone, Copy, PartialEq, Eq, Structural, Debug)]
pub struct Health(pub u32);

/// How much of an attack an entity's armour stops.
#[derive(Clone, Copy, PartialEq, Eq, Structural, Debug)]
pub struct Armour(pub u32);

/// The name of an entity.
#[derive(Clone, Debug)]
pub struct EntityName(pub String);

/// The state kept for one entity.
#[derive(Clone, Debug)]
pub struct Entity {
    pub name: EntityName,
    pub attack: Attack,
    pub armour: Armour,
    pub health: Health,
    pub class: EntityClass,
}

/// A bear: attack 100, armour 50, health 50, an animal.
pub fn create_bear() -> (r: Entity)
    ensures
        r.name.0@ == "Bear"@,
        r.attack == Attack(100),
        r.armour == Armour(50),
        r.health == Health(50),
        r.class == EntityClass::Animal,
{
    let name = "Bear";
    proof {
        reveal_strlit("Bear");
    }
    Entity {
        name: EntityName(name.to_owned()),
        attack: Attack(100),
        armour: Armour(50),
        health: Health(50),
        class: EntityClass::Animal,
    }
}

/// The damage an attack does through armour.
pub open spec fn damage(attack: Attack, armour: Armour) -> int {
    attack.0 - armour.0
}

/// Whether an attack can be resolved without the arithmetic going below
/// zero: the armour stops no more than the attack, and the damage is no more
/// than the target's health.
pub open spec fn attack_in_range(attack: Attack, armour: Armour, health: Health) -> bool {
    armour.0 <= attack.0 && damage(attack, armour) <= health.0
}

/// The target's health after an attack, where the attacker's attack and the
/// target's armour and health are all known; nothing otherwise.
pub fn attack(attacker_attack: Option<Attack>, target_armour: Option<Armour>, target_health: Option<Health>) -> (r: Option<Health>)
    requires
        attacker_attack is Some && target_armour is Some && target_health is Some ==> attack_in_range(
            attacker_attack->0,
            target_armour->0,
            target_health->0,
        ),
    ensures
        r is Some <==> (attacker_attack is Some && target_armour is Some && target_health is Some),
        r is Some ==> (r->0).0 == (target_health->0).0 - damage(attacker_attack->0, target_armour->0),
{
    match (attacker_attack, target_armour, target_health) {
        (Some(a), Some(ar), Some(h)) => Some(Health(h.0 - (a.0 - ar.0))),
        _ => None,
    }
}

} // verus!
