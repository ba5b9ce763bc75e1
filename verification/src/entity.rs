//! Combat units: the data one unit carries, the two factions, and the
//! three unit classes with their fixed starting statistics.

use vstd::prelude::*;
use crate::random::random_u16;

verus! {

/// Column in which units of the green faction enter the field.
pub const GREEN_SPAWN_X: i16 = 1;

/// Column in which units of the red faction enter the field.
pub const RED_SPAWN_X: i16 = 68;

/// Unit identifiers are drawn from `0..ID_LIMIT`; two units may share one.
pub const ID_LIMIT: u16 = 65000;

/// One of the two opposing sides.
#[derive(Clone, Copy, Debug, PartialEq, Eq, Structural)]
pub enum Faction {
    Green,
    Red,
}

/// The closed set of unit templates.
#[derive(Clone, Copy, Debug, PartialEq, Eq, Structural)]
pub enum UnitClass {
    Barbarian,
    Archer,
    Giant,
}

/// Half-open interval `[start, end)` from which damage is drawn.
#[derive(Clone, Copy, Debug, PartialEq, Eq, Structural)]
pub struct DamageRange {
    pub start: i16,
    pub end: i16,
}

/// One combat unit. A unit whose `hp` is zero or less is dead; it stays in
/// its collection but takes no further part in the battle.
#[derive(Clone, Copy, Debug, PartialEq, Eq, Structural)]
pub struct Character {
    pub unique_id: u16,
    pub x: i16,
    pub y: i16,
    pub denotation: char,
    pub color: Faction,
    pub hp: i16,
    pub attack_skill: i16,
    pub damage_range: DamageRange,
    pub defence_class: i16,
    pub attack_range: i16,
    pub attack_rate: i16,
    pub attack_cooldown: i16,
    pub movement_rate: i16,
    pub movement_cooldown: i16,
    pub is_attacking: bool,
}

impl Faction {
    /// The edge column at which this faction's units appear.
    pub open spec fn spawn_x(self) -> i16 {
        match self {
            Faction::Green => GREEN_SPAWN_X,
            Faction::Red => RED_SPAWN_X,
        }
    }

    /// Gives the edge column at which this faction's units appear.
    pub fn spawn_column(self) -> (x: i16)
        ensures
            x == self.spawn_x(),
    {
        match self {
            Faction::Green => GREEN_SPAWN_X,
            Faction::Red => RED_SPAWN_X,
        }
    }
}

impl UnitClass {
    /// The starting record of this class, before a unit is given its
    /// place, side and identifier: it stands at the origin on the green
    /// side with identifier zero. Both cooldowns start at their rates.
    pub open spec fn template(self) -> Character {
        match self {
            UnitClass::Barbarian => Character {
                unique_id: 0,
                x: 0,
                y: 0,
                denotation: 'B',
                color: Faction::Green,
                hp: 12,
                attack_skill: 3,
                damage_range: DamageRange { start: 1, end: 7 },
                defence_class: 9,
                attack_range: 1,
                attack_rate: 5,
                attack_cooldown: 5,
                movement_rate: 7,
                movement_cooldown: 7,
                is_attacking: false,
            },
            UnitClass::Archer => Character {
                unique_id: 0,
                x: 0,
                y: 0,
                denotation: 'A',
                color: Faction::Green,
                hp: 6,
                attack_skill: 2,
                damage_range: DamageRange { start: 1, end: 4 },
                defence_class: 7,
                attack_range: 5,
                attack_rate: 10,
                attack_cooldown: 10,
                movement_rate: 13,
                movement_cooldown: 13,
                is_attacking: false,
            },
            UnitClass::Giant => Character {
                unique_id: 0,
                x: 0,
                y: 0,
                denotation: 'G',
                color: Faction::Green,
                hp: 30,
                attack_skill: 4,
                damage_range: DamageRange { start: 6, end: 12 },
                defence_class: 12,
                attack_range: 1,
                attack_rate: 15,
                attack_cooldown: 15,
                movement_rate: 30,
                movement_cooldown: 30,
                is_attacking: false,
            },
        }
    }

    /// Looks up the starting record of this class.
    pub fn stats(self) -> (record: Character)
        ensures
            record == self.template(),
    {
        match self {
            UnitClass::Barbarian => Character {
                unique_id: 0,
                x: 0,
                y: 0,
                denotation: 'B',
                color: Faction::Green,
                hp: 12,
                attack_skill: 3,
                damage_range: DamageRange { start: 1, end: 7 },
                defence_class: 9,
                attack_range: 1,
                attack_rate: 5,
                attack_cooldown: 5,
                movement_rate: 7,
                movement_cooldown: 7,
                is_attacking: false,
            },
            UnitClass::Archer => Character {
                unique_id: 0,
                x: 0,
                y: 0,
                denotation: 'A',
                color: Faction::Green,
                hp: 6,
                attack_skill: 2,
                damage_range: DamageRange { start: 1, end: 4 },
                defence_class: 7,
                attack_range: 5,
                attack_rate: 10,
                attack_cooldown: 10,
                movement_rate: 13,
                movement_cooldown: 13,
                is_attacking: false,
            },
            UnitClass::Giant => Character {
                unique_id: 0,
                x: 0,
                y: 0,
                denotation: 'G',
                color: Faction::Green,
                hp: 30,
                attack_skill: 4,
                damage_range: DamageRange { start: 6, end: 12 },
                defence_class: 12,
                attack_range: 1,
                attack_rate: 15,
                attack_cooldown: 15,
                movement_rate: 30,
                movement_cooldown: 30,
                is_attacking: false,
            },
        }
    }
}

impl Character {
    /// A unit is alive while it has hit points left.
    pub open spec fn alive(self) -> bool {
        self.hp > 0
    }

    /// Two units are enemies when they fight for different factions.
    pub open spec fn hostile_to(self, other: Character) -> bool {
        self.color != other.color
    }

    /// Whether two units stand on the same cell.
    pub open spec fn shares_cell_with(self, other: Character) -> bool {
        self.x == other.x && self.y == other.y
    }

    /// A unit is well formed when damage can be drawn for it: its damage
    /// interval is not empty and holds no negative amount.
    pub open spec fn wf(self) -> bool {
        0 <= self.damage_range.start < self.damage_range.end
    }

    /// The unit of class `class` as it enters the field: the class
    /// template, placed on row `y` at the edge column of `color`.
    pub open spec fn fresh(class: UnitClass, y: i16, color: Faction, unique_id: u16) -> Character {
        Character { unique_id, x: color.spawn_x(), y, color, ..class.template() }
    }

    /// Builds the unit that `fresh` describes.
    pub fn from_template(class: UnitClass, y: i16, color: Faction, unique_id: u16) -> (unit:
        Character)
        ensures
            unit == Character::fresh(class, y, color, unique_id),
    {
        Character { unique_id, x: color.spawn_column(), y, color, ..class.stats() }
    }

    /// Tells whether the unit has hit points left.
    pub fn is_alive(&self) -> (b: bool)
        ensures
            b == self.alive(),
    {
        self.hp > 0
    }

    /// Tells whether the two units fight for different factions.
    pub fn is_hostile_to(&self, other: &Character) -> (b: bool)
        ensures
            b == self.hostile_to(*other),
    {
        self.color != other.color
    }
}

/// Every unit of the collection is well formed.
pub open spec fn all_wf(s: Seq<Character>) -> bool {
    forall|i: int| 0 <= i < s.len() ==> (#[trigger] s[i]).wf()
}

/// Every unit enters the field alive, at rest, well formed, and with both
/// cooldowns equal to their rates.
pub proof fn lemma_fresh_unit(class: UnitClass, y: i16, color: Faction, unique_id: u16)
    ensures
        ({
            let unit = Character::fresh(class, y, color, unique_id);
            &&& unit.wf()
            &&& unit.alive()
            &&& !unit.is_attacking
            &&& unit.attack_cooldown == unit.attack_rate
            &&& unit.movement_cooldown == unit.movement_rate
            &&& unit.attack_rate > 0
            &&& unit.movement_rate > 0
            &&& unit.x == color.spawn_x()
            &&& unit.y == y
            &&& unit.unique_id == unique_id
            &&& unit.color == color
        }),
{
}

/// Draws an identifier and creates a unit of `class` on row `y` for `c`.
pub fn generate(class: UnitClass, y: i16, c: Faction) -> (unit: Character)
    ensures
        unit.unique_id < ID_LIMIT,
        unit == Character::fresh(class, y, c, unit.unique_id),
{
    let unique_id: u16 = random_u16(0, ID_LIMIT);
    Character::from_template(class, y, c, unique_id)
}

/// Creates a barbarian on row `y` for faction `c`, with a random identifier.
pub fn generate_barbarian(y: i16, c: Faction) -> (unit: Character)
    ensures
        unit.unique_id < ID_LIMIT,
        unit == Character::fresh(UnitClass::Barbarian, y, c, unit.unique_id),
{
    generate(UnitClass::Barbarian, y, c)
}

/// Creates an archer on row `y` for faction `c`, with a random identifier.
pub fn generate_archer(y: i16, c: Faction) -> (unit: Character)
    ensures
        unit.unique_id < ID_LIMIT,
        unit == Character::fresh(UnitClass::Archer, y, c, unit.unique_id),
{
    generate(UnitClass::Archer, y, c)
}

/// Creates a giant on row `y` for faction `c`, with a random identifier.
pub fn generate_giant(y: i16, c: Faction) -> (unit: Character)
    ensures
        unit.unique_id < ID_LIMIT,
        unit == Character::fresh(UnitClass::Giant, y, c, unit.unique_id),
{
    generate(UnitClass::Giant, y, c)
}

} // verus!
