//! Combat resolution: once per tick every living unit either cools down
//! or, when ready, attacks the first living enemy it finds within reach.

use vstd::prelude::*;
use crate::entity::{all_wf, Character};
use crate::random::random_i16;
use crate::turn_order::{is_turn_order, shuffled_order};
use crate::movement::no_overlap;

verus! {

/// The random draws of one attack: two dice and the damage dealt on a hit.
#[derive(Clone, Copy, Debug, PartialEq, Eq, Structural)]
pub struct AttackRoll {
    pub die_one: i16,
    pub die_two: i16,
    pub damage: i16,
}

/// The roll could have come from two six-sided dice and from the damage
/// interval of `unit`.
pub open spec fn fair_roll(roll: AttackRoll, unit: Character) -> bool {
    &&& 1 <= roll.die_one <= 6
    &&& 1 <= roll.die_two <= 6
    &&& unit.damage_range.start <= roll.damage < unit.damage_range.end
}

/// The target stands inside the square window of the attacker's range:
/// neither coordinate differs by more than `attack_range`.
pub open spec fn within_reach(attacker: Character, target: Character) -> bool {
    &&& -attacker.attack_range <= target.x - attacker.x <= attacker.attack_range
    &&& -attacker.attack_range <= target.y - attacker.y <= attacker.attack_range
}

/// Unit `j` can be attacked by `attacker`: a living enemy within reach.
pub open spec fn is_target(s: Seq<Character>, attacker: int, j: int) -> bool {
    &&& 0 <= j < s.len()
    &&& s[j].alive()
    &&& s[attacker].hostile_to(s[j])
    &&& within_reach(s[attacker], s[j])
}

/// Position `at` of the scan order holds the first unit that `attacker`
/// can attack.
pub open spec fn is_first_target(s: Seq<Character>, order: Seq<usize>, attacker: int, at: int) -> bool {
    &&& 0 <= at < order.len()
    &&& is_target(s, attacker, order[at] as int)
    &&& forall|e: int| 0 <= e < at ==> !is_target(s, attacker, #[trigger] order[e] as int)
}

/// The unit that `attacker` attacks: the first one in scan order that is
/// a living enemy within reach, if there is any.
pub open spec fn first_target(s: Seq<Character>, order: Seq<usize>, attacker: int) -> Option<int> {
    if exists|at: int| is_first_target(s, order, attacker, at) {
        Some(order[choose|at: int| is_first_target(s, order, attacker, at)] as int)
    } else {
        None
    }
}

/// An attack succeeds when two dice plus the attacker's skill reach the
/// target's defence class.
pub open spec fn attack_hits(die_one: int, die_two: int, attack_skill: int, defence_class: int) -> bool {
    die_one + die_two + attack_skill >= defence_class
}

/// The collection after `attacker` has attacked `target` with `roll`. On
/// a hit the damage comes off the target's hit points. The attacker
/// starts a new cooldown and counts as fighting, unless it has just
/// felled its target.
pub open spec fn strike(s: Seq<Character>, attacker: int, target: int, roll: AttackRoll) -> Seq<Character> {
    let hit = attack_hits(
        roll.die_one as int,
        roll.die_two as int,
        s[attacker].attack_skill as int,
        s[target].defence_class as int,
    );
    let hp = if hit {
        (s[target].hp - roll.damage) as i16
    } else {
        s[target].hp
    };
    s.update(target, Character { hp, ..s[target] }).update(
        attacker,
        Character {
            is_attacking: !(hit && hp <= 0),
            attack_cooldown: s[attacker].attack_rate,
            ..s[attacker]
        },
    )
}

/// The collection after unit `attacker` has had its combat turn. A dead
/// unit is left alone. A unit that is still cooling down cools down by
/// one and does nothing else. A ready unit stops fighting, then attacks
/// exactly one unit, the first target in scan order, if there is one.
pub open spec fn attack_turn(s: Seq<Character>, order: Seq<usize>, attacker: int, roll: AttackRoll) -> Seq<Character> {
    if !(0 <= attacker < s.len()) || !s[attacker].alive() {
        s
    } else if s[attacker].attack_cooldown > 0 {
        s.update(
            attacker,
            Character {
                attack_cooldown: (s[attacker].attack_cooldown - 1) as i16,
                ..s[attacker]
            },
        )
    } else {
        match first_target(s, order, attacker) {
            None => s.update(attacker, Character { is_attacking: false, ..s[attacker] }),
            Some(target) => strike(s, attacker, target, roll),
        }
    }
}

/// The collection after the first `turns` units of `order` have had their
/// combat turns, the unit at position `k` using `rolls[k]`.
pub open spec fn attack_rounds(s: Seq<Character>, order: Seq<usize>, rolls: Seq<AttackRoll>, turns: nat) -> Seq<Character>
    decreases turns,
{
    if turns == 0 {
        s
    } else {
        attack_turn(
            attack_rounds(s, order, rolls, (turns - 1) as nat),
            order,
            order[turns - 1] as int,
            rolls[turns - 1],
        )
    }
}

/// The collection after every unit named in `order` has had its combat turn.
pub open spec fn attack_pass(s: Seq<Character>, order: Seq<usize>, rolls: Seq<AttackRoll>) -> Seq<Character> {
    attack_rounds(s, order, rolls, order.len())
}

/// Decides an attack roll: two dice plus skill against the defence class.
pub fn attack_succeeds(die_one: i16, die_two: i16, attack_skill: i16, defence_class: i16) -> (hit: bool)
    ensures
        hit == attack_hits(die_one as int, die_two as int, attack_skill as int, defence_class as int),
{
    let total: i32 = die_one as i32 + die_two as i32 + attack_skill as i32;
    total >= defence_class as i32
}

/// Tells whether `target` stands within the attacker's square window.
pub fn is_within_reach(attacker: &Character, target: &Character) -> (near: bool)
    ensures
        near == within_reach(*attacker, *target),
{
    let reach: i32 = attacker.attack_range as i32;
    let dx: i32 = target.x as i32 - attacker.x as i32;
    let dy: i32 = target.y as i32 - attacker.y as i32;
    -reach <= dx && dx <= reach && -reach <= dy && dy <= reach
}

/// Finds the unit that `attacker` attacks, scanning in `order`.
pub fn find_target(pieces: &Vec<Character>, order: &Vec<usize>, attacker: usize) -> (found: Option<usize>)
    requires
        attacker < pieces.len(),
        forall|k: int| 0 <= k < order.len() ==> #[trigger] order[k] < pieces.len(),
    ensures
        match found {
            Some(j) => first_target(pieces@, order@, attacker as int) == Some(j as int) && is_target(
                pieces@,
                attacker as int,
                j as int,
            ),
            None => first_target(pieces@, order@, attacker as int) is None,
        },
{
    let mut at: usize = 0;
    while at < order.len()
        invariant
            at <= order.len(),
            attacker < pieces.len(),
            forall|k: int| 0 <= k < order.len() ==> #[trigger] order[k] < pieces.len(),
            forall|e: int| 0 <= e < at ==> !is_target(pieces@, attacker as int, #[trigger] order[e] as int),
        decreases order.len() - at,
    {
        let j: usize = order[at];
        if pieces[j].is_alive() && pieces[attacker].is_hostile_to(&pieces[j]) && is_within_reach(
            &pieces[attacker],
            &pieces[j],
        ) {
            proof {
                assert(is_first_target(pieces@, order@, attacker as int, at as int));
                let chosen = choose|c: int| is_first_target(pieces@, order@, attacker as int, c);
                assert(chosen == at) by {
                    if chosen < at {
                        assert(!is_target(pieces@, attacker as int, order[chosen] as int));
                    }
                    if at < chosen {
                        assert(!is_target(pieces@, attacker as int, order[at as int] as int));
                    }
                }
            }
            return Some(j);
        }
        at = at + 1;
    }
    proof {
        assert forall|c: int| !is_first_target(pieces@, order@, attacker as int, c) by {
            if 0 <= c < order.len() {
                assert(!is_target(pieces@, attacker as int, order[c] as int));
            }
        }
    }
    None
}

/// Gives unit `attacker` its combat turn, with `roll` as its draws.
pub fn take_attack_turn(pieces: &mut Vec<Character>, order: &Vec<usize>, attacker: usize, roll: AttackRoll)
    requires
        attacker < old(pieces).len(),
        forall|k: int| 0 <= k < order.len() ==> #[trigger] order[k] < old(pieces).len(),
        roll.damage >= 0,
    ensures
        final(pieces)@ == attack_turn(old(pieces)@, order@, attacker as int, roll),
{
    let unit: Character = pieces[attacker];
    if unit.hp < 1 {
        return ;
    }
    if unit.attack_cooldown > 0 {
        pieces[attacker].attack_cooldown = unit.attack_cooldown - 1;
        assert(pieces@ =~= attack_turn(old(pieces)@, order@, attacker as int, roll));
        return ;
    }
    match find_target(pieces, order, attacker) {
        None => {
            pieces[attacker].is_attacking = false;
        },
        Some(j) => {
            let target: Character = pieces[j];
            let mut felled: bool = false;
            if attack_succeeds(roll.die_one, roll.die_two, unit.attack_skill, target.defence_class) {
                let hp: i16 = target.hp - roll.damage;
                pieces[j].hp = hp;
                felled = hp <= 0;
            }
            pieces[attacker].is_attacking = !felled;
            pieces[attacker].attack_cooldown = unit.attack_rate;
        },
    }
    assert(pieces@ =~= attack_turn(old(pieces)@, order@, attacker as int, roll));
}

/// The rolls could have come from the dice and from the damage intervals
/// of the units that use them: `rolls[k]` belongs to the unit `order[k]`.
pub open spec fn fair_rolls(s: Seq<Character>, order: Seq<usize>, rolls: Seq<AttackRoll>) -> bool {
    &&& rolls.len() == order.len()
    &&& forall|k: int|
        0 <= k < rolls.len() ==> fair_roll(#[trigger] rolls[k], s[order[k] as int])
}

/// A combat turn changes nothing of any unit but its hit points, its
/// fighting flag and its attack cooldown, and it changes no dead unit at
/// all: a dead unit is never the attacker and never the target.
pub proof fn lemma_attack_turn_frame(s: Seq<Character>, order: Seq<usize>, attacker: int, roll: AttackRoll)
    ensures
        attack_turn(s, order, attacker, roll).len() == s.len(),
        0 <= attacker < s.len() && !s[attacker].alive() ==> attack_turn(s, order, attacker, roll)
            == s,
        forall|j: int| first_target(s, order, attacker) == Some(j) ==> is_target(s, attacker, j),
        forall|k: int|
            0 <= k < s.len() && !s[k].alive() ==> (#[trigger] attack_turn(s, order, attacker, roll)[k])
                == s[k],
        forall|k: int|
            0 <= k < s.len() ==> (#[trigger] attack_turn(s, order, attacker, roll)[k]) == (Character {
                hp: attack_turn(s, order, attacker, roll)[k].hp,
                is_attacking: attack_turn(s, order, attacker, roll)[k].is_attacking,
                attack_cooldown: attack_turn(s, order, attacker, roll)[k].attack_cooldown,
                ..s[k]
            }),
{
}

/// Any number of combat turns keep the number of units, change no unit
/// that was dead at the start, and change nothing of a unit but its hit
/// points, its fighting flag and its attack cooldown.
pub proof fn lemma_attack_rounds_frame(s: Seq<Character>, order: Seq<usize>, rolls: Seq<AttackRoll>, turns: nat)
    ensures
        attack_rounds(s, order, rolls, turns).len() == s.len(),
        forall|k: int|
            0 <= k < s.len() && !s[k].alive() ==> (#[trigger] attack_rounds(s, order, rolls, turns)[k])
                == s[k],
        forall|k: int|
            0 <= k < s.len() ==> (#[trigger] attack_rounds(s, order, rolls, turns)[k]) == (Character {
                hp: attack_rounds(s, order, rolls, turns)[k].hp,
                is_attacking: attack_rounds(s, order, rolls, turns)[k].is_attacking,
                attack_cooldown: attack_rounds(s, order, rolls, turns)[k].attack_cooldown,
                ..s[k]
            }),
    decreases turns,
{
    if turns > 0 {
        let before = attack_rounds(s, order, rolls, (turns - 1) as nat);
        lemma_attack_rounds_frame(s, order, rolls, (turns - 1) as nat);
        lemma_attack_turn_frame(before, order, order[turns - 1] as int, rolls[turns - 1]);
    }
}

/// Combat moves nobody and revives nobody, so units that stood apart
/// before a combat pass stand apart after it.
pub proof fn lemma_attack_pass_keeps_units_apart(s: Seq<Character>, order: Seq<usize>, rolls: Seq<AttackRoll>)
    requires
        no_overlap(s),
    ensures
        no_overlap(attack_pass(s, order, rolls)),
{
    let after = attack_pass(s, order, rolls);
    lemma_attack_rounds_frame(s, order, rolls, order.len());
    assert forall|a: int, b: int|
        0 <= a < after.len() && 0 <= b < after.len() && a != b && (#[trigger] after[a]).alive() && (
        #[trigger] after[b]).alive() implies !after[a].shares_cell_with(after[b]) by {
        assert(s[a].alive() && s[b].alive());
    }
}

/// Attack cooldowns and rates are all zero or above.
pub open spec fn attack_cooldowns_nonnegative(s: Seq<Character>) -> bool {
    forall|k: int|
        0 <= k < s.len() ==> (#[trigger] s[k]).attack_cooldown >= 0 && s[k].attack_rate >= 0
}

/// A combat turn never drives an attack cooldown below zero.
pub proof fn lemma_attack_turn_keeps_cooldowns(s: Seq<Character>, order: Seq<usize>, attacker: int, roll: AttackRoll)
    requires
        attack_cooldowns_nonnegative(s),
    ensures
        attack_cooldowns_nonnegative(attack_turn(s, order, attacker, roll)),
{
    let after = attack_turn(s, order, attacker, roll);
    lemma_attack_turn_frame(s, order, attacker, roll);
    assert forall|k: int| 0 <= k < after.len() implies (#[trigger] after[k]).attack_cooldown >= 0
        && after[k].attack_rate >= 0 by {
        assert(s[k].attack_cooldown >= 0 && s[k].attack_rate >= 0);
    }
}

/// Any number of combat turns leave every attack cooldown at zero or above.
pub proof fn lemma_attack_rounds_keep_cooldowns(s: Seq<Character>, order: Seq<usize>, rolls: Seq<AttackRoll>, turns: nat)
    requires
        attack_cooldowns_nonnegative(s),
    ensures
        attack_cooldowns_nonnegative(attack_rounds(s, order, rolls, turns)),
    decreases turns,
{
    if turns > 0 {
        lemma_attack_rounds_keep_cooldowns(s, order, rolls, (turns - 1) as nat);
        lemma_attack_turn_keeps_cooldowns(
            attack_rounds(s, order, rolls, (turns - 1) as nat),
            order,
            order[turns - 1] as int,
            rolls[turns - 1],
        );
    }
}

/// A combat pass never drives an attack cooldown below zero, whatever the
/// turn order and the rolls.
pub proof fn lemma_attack_pass_keeps_cooldowns(s: Seq<Character>, order: Seq<usize>, rolls: Seq<AttackRoll>)
    requires
        attack_cooldowns_nonnegative(s),
    ensures
        attack_cooldowns_nonnegative(attack_pass(s, order, rolls)),
{
    lemma_attack_rounds_keep_cooldowns(s, order, rolls, order.len());
}

/// Gives the units named in `order` their combat turns, in that order,
/// the unit at position `k` using `rolls[k]`.
pub fn attack_in_order(pieces: &mut Vec<Character>, order: &Vec<usize>, rolls: &Vec<AttackRoll>)
    requires
        rolls.len() == order.len(),
        forall|k: int| 0 <= k < order.len() ==> #[trigger] order[k] < old(pieces).len(),
        forall|k: int| 0 <= k < rolls.len() ==> (#[trigger] rolls[k]).damage >= 0,
    ensures
        final(pieces)@ == attack_pass(old(pieces)@, order@, rolls@),
{
    let mut done: usize = 0;
    while done < order.len()
        invariant
            done <= order.len(),
            rolls.len() == order.len(),
            forall|k: int| 0 <= k < order.len() ==> #[trigger] order[k] < old(pieces).len(),
            forall|k: int| 0 <= k < rolls.len() ==> (#[trigger] rolls[k]).damage >= 0,
            pieces.len() == old(pieces).len(),
            pieces@ == attack_rounds(old(pieces)@, order@, rolls@, done as nat),
        decreases order.len() - done,
    {
        take_attack_turn(pieces, order, order[done], rolls[done]);
        done = done + 1;
        proof {
            lemma_attack_rounds_frame(old(pieces)@, order@, rolls@, done as nat);
        }
    }
}

/// Rolls two dice and draws a damage amount for `unit`.
pub fn draw_roll(unit: &Character) -> (roll: AttackRoll)
    requires
        unit.wf(),
    ensures
        fair_roll(roll, *unit),
{
    let die_one: i16 = random_i16(1, 7);
    let die_two: i16 = random_i16(1, 7);
    let damage: i16 = random_i16(unit.damage_range.start, unit.damage_range.end);
    AttackRoll { die_one, die_two, damage }
}

/// The combat resolver: gives every unit one combat turn, in a freshly
/// shuffled order that is also the order in which targets are sought,
/// with freshly drawn dice and damage. Whatever is drawn, only hit
/// points, fighting flags and attack cooldowns change, dead units stay
/// as they are, and no attack cooldown drops below zero.
pub fn update_attacks(pieces: &mut Vec<Character>)
    requires
        all_wf(old(pieces)@),
    ensures
        exists|order: Seq<usize>, rolls: Seq<AttackRoll>|
            {
                &&& is_turn_order(order, old(pieces).len() as nat)
                &&& fair_rolls(old(pieces)@, order, rolls)
                &&& final(pieces)@ == #[trigger] attack_pass(old(pieces)@, order, rolls)
            },
        final(pieces).len() == old(pieces).len(),
        all_wf(final(pieces)@),
        forall|k: int|
            0 <= k < old(pieces).len() && !old(pieces)[k].alive() ==> final(pieces)[k] == old(
                pieces,
            )[k],
        forall|k: int|
            0 <= k < old(pieces).len() ==> final(pieces)[k] == (Character {
                hp: final(pieces)[k].hp,
                is_attacking: final(pieces)[k].is_attacking,
                attack_cooldown: final(pieces)[k].attack_cooldown,
                ..old(pieces)[k]
            }),
        no_overlap(old(pieces)@) ==> no_overlap(final(pieces)@),
        attack_cooldowns_nonnegative(old(pieces)@) ==> attack_cooldowns_nonnegative(final(pieces)@),
{
    let order: Vec<usize> = shuffled_order(pieces.len());
    let mut rolls: Vec<AttackRoll> = Vec::new();
    let mut k: usize = 0;
    while k < order.len()
        invariant
            k <= order.len(),
            rolls.len() == k,
            pieces@ == old(pieces)@,
            all_wf(pieces@),
            is_turn_order(order@, pieces.len() as nat),
            forall|e: int| 0 <= e < k ==> fair_roll(#[trigger] rolls[e], pieces[order[e] as int]),
        decreases order.len() - k,
    {
        let roll: AttackRoll = draw_roll(&pieces[order[k]]);
        rolls.push(roll);
        k = k + 1;
    }
    attack_in_order(pieces, &order, &rolls);
    proof {
        assert(fair_rolls(old(pieces)@, order@, rolls@));
        lemma_attack_rounds_frame(old(pieces)@, order@, rolls@, order@.len());
        if no_overlap(old(pieces)@) {
            lemma_attack_pass_keeps_units_apart(old(pieces)@, order@, rolls@);
        }
        if attack_cooldowns_nonnegative(old(pieces)@) {
            lemma_attack_pass_keeps_cooldowns(old(pieces)@, order@, rolls@);
        }
        assert forall|i: int| 0 <= i < pieces.len() implies (#[trigger] pieces[i]).wf() by {
            assert(old(pieces)[i].wf());
        }
    }
}

} // verus!
