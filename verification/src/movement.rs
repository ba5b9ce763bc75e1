//! Movement resolution: once per tick every living unit that is not
//! fighting cools down and, when due, takes one step towards its nearest
//! living enemy, unless another living unit already stands there.

use vstd::prelude::*;
use crate::entity::{all_wf, Character};
use crate::turn_order::{is_turn_order, shuffled_order};

verus! {

/// Square of the straight-line distance between two units.
pub open spec fn squared_distance(a: Character, b: Character) -> int {
    (b.x - a.x) * (b.x - a.x) + (b.y - a.y) * (b.y - a.y)
}

/// The measure by which a mover ranks its enemies, nearest first: the
/// squared distance, except that an enemy on the mover's own row ranks
/// before every enemy on another row, however far away it stands.
pub open spec fn pursuit_rank(mover: Character, enemy: Character) -> int {
    if mover.y == enemy.y {
        0
    } else {
        squared_distance(mover, enemy)
    }
}

/// Unit `j` may be pursued by `mover`: it is a living enemy.
pub open spec fn is_quarry(s: Seq<Character>, mover: int, j: int) -> bool {
    &&& 0 <= j < s.len()
    &&& s[j].alive()
    &&& s[mover].hostile_to(s[j])
}

/// Unit `j` is the living enemy that ranks first for `mover`; among
/// enemies of equal rank the one with the lowest index wins.
pub open spec fn is_nearest_enemy(s: Seq<Character>, mover: int, j: int) -> bool {
    &&& is_quarry(s, mover, j)
    &&& forall|k: int| #[trigger]
        is_quarry(s, mover, k) ==> {
            ||| pursuit_rank(s[mover], s[j]) < pursuit_rank(s[mover], s[k])
            ||| pursuit_rank(s[mover], s[j]) == pursuit_rank(s[mover], s[k]) && j <= k
        }
}

/// The unit that `mover` pursues, if it has any living enemy.
pub open spec fn nearest_enemy(s: Seq<Character>, mover: int) -> Option<int> {
    if exists|j: int| is_nearest_enemy(s, mover, j) {
        Some(choose|j: int| is_nearest_enemy(s, mover, j))
    } else {
        None
    }
}

/// One step along an axis from `from` towards `to`: -1, 0 or 1.
pub open spec fn step_toward(from: int, to: int) -> int {
    if from < to {
        1
    } else if from > to {
        -1
    } else {
        0
    }
}

/// Unit `j` is a living unit other than `mover` standing on cell `(x, y)`.
pub open spec fn blocks(s: Seq<Character>, mover: int, j: int, x: int, y: int) -> bool {
    &&& 0 <= j < s.len()
    &&& j != mover
    &&& s[j].alive()
    &&& s[j].x == x
    &&& s[j].y == y
}

/// Some living unit other than `mover` stands on cell `(x, y)`.
pub open spec fn cell_taken(s: Seq<Character>, mover: int, x: int, y: int) -> bool {
    exists|j: int| #[trigger] blocks(s, mover, j, x, y)
}

/// The unit takes part in movement: it is alive and not fighting.
pub open spec fn at_rest(c: Character) -> bool {
    c.alive() && !c.is_attacking
}

/// The collection after unit `mover` has had its movement turn. A dead or
/// fighting unit is left alone. Any other unit cools down by one; once its
/// cooldown is spent it steps towards its nearest living enemy and starts
/// a new cooldown, unless it has no living enemy or the cell it steps onto
/// is taken, in which case only the cooling down remains.
pub open spec fn movement_turn(s: Seq<Character>, mover: int) -> Seq<Character> {
    if !(0 <= mover < s.len()) || !at_rest(s[mover]) {
        s
    } else {
        let unit = s[mover];
        let cooled = Character { movement_cooldown: (unit.movement_cooldown - 1) as i16, ..unit };
        if cooled.movement_cooldown > 0 {
            s.update(mover, cooled)
        } else {
            match nearest_enemy(s, mover) {
                None => s.update(mover, cooled),
                Some(j) => {
                    let x = unit.x + step_toward(unit.x as int, s[j].x as int);
                    let y = unit.y + step_toward(unit.y as int, s[j].y as int);
                    if cell_taken(s, mover, x, y) {
                        s.update(mover, cooled)
                    } else {
                        s.update(
                            mover,
                            Character {
                                x: x as i16,
                                y: y as i16,
                                movement_cooldown: unit.movement_rate,
                                ..unit
                            },
                        )
                    }
                },
            }
        }
    }
}

/// The collection after the units named in `order` have had their
/// movement turns, one after the other.
pub open spec fn movement_pass(s: Seq<Character>, order: Seq<usize>) -> Seq<Character>
    decreases order.len(),
{
    if order.len() == 0 {
        s
    } else {
        movement_turn(movement_pass(s, order.drop_last()), order.last() as int)
    }
}

/// Cooling down does not run off the low end of the cooldown counter.
pub open spec fn movement_defined(s: Seq<Character>) -> bool {
    forall|i: int|
        0 <= i < s.len() && at_rest(#[trigger] s[i]) ==> s[i].movement_cooldown > i16::MIN
}

/// No two living units stand on the same cell.
pub open spec fn no_overlap(s: Seq<Character>) -> bool {
    forall|a: int, b: int|
        0 <= a < s.len() && 0 <= b < s.len() && a != b && (#[trigger] s[a]).alive() && (
        #[trigger] s[b]).alive() ==> !s[a].shares_cell_with(s[b])
}

/// Ranks `enemy` for `mover`: zero on the mover's row, else the squared
/// distance.
pub fn calc_distance(mover: &Character, enemy: &Character) -> (rank: i64)
    ensures
        rank == pursuit_rank(*mover, *enemy),
{
    if mover.y == enemy.y {
        return 0;
    }
    let dx: i64 = enemy.x as i64 - mover.x as i64;
    let dy: i64 = enemy.y as i64 - mover.y as i64;
    assert(dx * dx <= 65535 * 65535 && dy * dy <= 65535 * 65535) by (nonlinear_arith)
        requires
            -65535 <= dx <= 65535,
            -65535 <= dy <= 65535,
    ;
    assert(dx * dx >= 0 && dy * dy >= 0) by (nonlinear_arith);
    dx * dx + dy * dy
}

/// At most one unit is the nearest enemy.
pub proof fn lemma_nearest_enemy_unique(s: Seq<Character>, mover: int, a: int, b: int)
    requires
        is_nearest_enemy(s, mover, a),
        is_nearest_enemy(s, mover, b),
    ensures
        a == b,
{
}

/// Finds the living enemy that `mover` pursues.
pub fn find_nearest_enemy(pieces: &Vec<Character>, mover: usize) -> (found: Option<usize>)
    requires
        mover < pieces.len(),
    ensures
        match found {
            Some(j) => nearest_enemy(pieces@, mover as int) == Some(j as int) && is_nearest_enemy(
                pieces@,
                mover as int,
                j as int,
            ),
            None => nearest_enemy(pieces@, mover as int) is None && forall|k: int|
                !is_quarry(pieces@, mover as int, k),
        },
{
    let mut best: Option<usize> = None;
    let mut best_rank: i64 = 0;
    let mut j: usize = 0;
    while j < pieces.len()
        invariant
            j <= pieces.len(),
            mover < pieces.len(),
            best is None ==> forall|k: int|
                0 <= k < j ==> !is_quarry(pieces@, mover as int, k),
            best matches Some(b) ==> {
                &&& b < j
                &&& is_quarry(pieces@, mover as int, b as int)
                &&& best_rank == pursuit_rank(pieces[mover as int], pieces[b as int])
                &&& forall|k: int|
                    0 <= k < j && #[trigger] is_quarry(pieces@, mover as int, k) ==> {
                        ||| best_rank < pursuit_rank(pieces[mover as int], pieces[k])
                        ||| best_rank == pursuit_rank(pieces[mover as int], pieces[k]) && b <= k
                    }
            },
        decreases pieces.len() - j,
    {
        if pieces[j].is_alive() && pieces[mover].is_hostile_to(&pieces[j]) {
            let rank: i64 = calc_distance(&pieces[mover], &pieces[j]);
            match best {
                None => {
                    best = Some(j);
                    best_rank = rank;
                },
                Some(_) => {
                    if rank < best_rank {
                        best = Some(j);
                        best_rank = rank;
                    }
                },
            }
        }
        j = j + 1;
    }
    proof {
        match best {
            Some(b) => {
                assert(is_nearest_enemy(pieces@, mover as int, b as int));
                let chosen = choose|c: int| is_nearest_enemy(pieces@, mover as int, c);
                lemma_nearest_enemy_unique(pieces@, mover as int, chosen, b as int);
            },
            None => {
                assert forall|k: int| !is_quarry(pieces@, mover as int, k) by {
                    if is_quarry(pieces@, mover as int, k) {
                        assert(0 <= k < j);
                    }
                }
            },
        }
    }
    best
}

/// Tells whether a living unit other than `mover` stands on `(x, y)`.
pub fn is_cell_taken(pieces: &Vec<Character>, mover: usize, x: i16, y: i16) -> (taken: bool)
    ensures
        taken == cell_taken(pieces@, mover as int, x as int, y as int),
{
    let mut j: usize = 0;
    while j < pieces.len()
        invariant
            j <= pieces.len(),
            forall|k: int| 0 <= k < j ==> !blocks(pieces@, mover as int, k, x as int, y as int),
        decreases pieces.len() - j,
    {
        if j != mover && pieces[j].is_alive() && pieces[j].x == x && pieces[j].y == y {
            assert(blocks(pieces@, mover as int, j as int, x as int, y as int));
            return true;
        }
        j = j + 1;
    }
    false
}

/// Gives unit `mover` its movement turn.
pub fn take_movement_turn(pieces: &mut Vec<Character>, mover: usize)
    requires
        mover < old(pieces).len(),
        at_rest(old(pieces)[mover as int]) ==> old(pieces)[mover as int].movement_cooldown
            > i16::MIN,
    ensures
        final(pieces)@ == movement_turn(old(pieces)@, mover as int),
{
    let unit: Character = pieces[mover];
    if unit.hp < 1 || unit.is_attacking {
        return ;
    }
    let cooldown: i16 = unit.movement_cooldown - 1;
    if cooldown > 0 {
        pieces[mover].movement_cooldown = cooldown;
        assert(pieces@ =~= movement_turn(old(pieces)@, mover as int));
        return ;
    }
    match find_nearest_enemy(pieces, mover) {
        None => {
            pieces[mover].movement_cooldown = cooldown;
            assert(pieces@ =~= movement_turn(old(pieces)@, mover as int));
        },
        Some(j) => {
            let target: Character = pieces[j];
            let mut x: i16 = unit.x;
            let mut y: i16 = unit.y;
            if unit.x < target.x {
                x = unit.x + 1;
            }
            if unit.x > target.x {
                x = unit.x - 1;
            }
            if unit.y < target.y {
                y = unit.y + 1;
            }
            if unit.y > target.y {
                y = unit.y - 1;
            }
            if is_cell_taken(pieces, mover, x, y) {
                pieces[mover].movement_cooldown = cooldown;
            } else {
                pieces[mover].x = x;
                pieces[mover].y = y;
                pieces[mover].movement_cooldown = unit.movement_rate;
            }
            assert(pieces@ =~= movement_turn(old(pieces)@, mover as int));
        },
    }
}

/// A movement turn changes at most the unit whose turn it is, and of that
/// unit only its place and its movement cooldown.
pub proof fn lemma_movement_turn_frame(s: Seq<Character>, mover: int)
    ensures
        movement_turn(s, mover).len() == s.len(),
        forall|k: int|
            0 <= k < s.len() && k != mover ==> (#[trigger] movement_turn(s, mover)[k]) == s[k],
        forall|k: int|
            0 <= k < s.len() ==> (#[trigger] movement_turn(s, mover)[k]) == (Character {
                x: movement_turn(s, mover)[k].x,
                y: movement_turn(s, mover)[k].y,
                movement_cooldown: movement_turn(s, mover)[k].movement_cooldown,
                ..s[k]
            }),
{
}

/// A dead unit never moves: its own turn changes nothing at all, and no
/// pursuit is ever directed at a dead unit.
pub proof fn lemma_dead_units_take_no_part(s: Seq<Character>, mover: int)
    ensures
        0 <= mover < s.len() && !s[mover].alive() ==> movement_turn(s, mover) == s,
        forall|j: int| nearest_enemy(s, mover) == Some(j) ==> 0 <= j < s.len() && s[j].alive(),
        forall|k: int|
            0 <= k < s.len() && !s[k].alive() ==> (#[trigger] movement_turn(s, mover)[k]) == s[k],
{
}

/// A movement pass keeps the number of units, moves no dead unit, and
/// changes nothing of any unit but its place and its movement cooldown.
pub proof fn lemma_movement_pass_frame(s: Seq<Character>, order: Seq<usize>)
    ensures
        movement_pass(s, order).len() == s.len(),
        forall|k: int|
            0 <= k < s.len() && !s[k].alive() ==> (#[trigger] movement_pass(s, order)[k]) == s[k],
        forall|k: int|
            0 <= k < s.len() ==> (#[trigger] movement_pass(s, order)[k]) == (Character {
                x: movement_pass(s, order)[k].x,
                y: movement_pass(s, order)[k].y,
                movement_cooldown: movement_pass(s, order)[k].movement_cooldown,
                ..s[k]
            }),
    decreases order.len(),
{
    if order.len() > 0 {
        let before = movement_pass(s, order.drop_last());
        lemma_movement_pass_frame(s, order.drop_last());
        lemma_movement_turn_frame(before, order.last() as int);
        lemma_dead_units_take_no_part(before, order.last() as int);
    }
}

/// A unit whose turn has not come yet in a pass is still as it was.
pub proof fn lemma_movement_pass_untouched(s: Seq<Character>, order: Seq<usize>, k: int)
    requires
        0 <= k < s.len(),
        forall|t: int| 0 <= t < order.len() ==> order[t] != k,
    ensures
        movement_pass(s, order)[k] == s[k],
    decreases order.len(),
{
    if order.len() > 0 {
        let before = movement_pass(s, order.drop_last());
        lemma_movement_pass_frame(s, order.drop_last());
        assert forall|t: int| 0 <= t < order.drop_last().len() implies order.drop_last()[t]
            != k by {
            assert(order.drop_last()[t] == order[t]);
        }
        lemma_movement_pass_untouched(s, order.drop_last(), k);
        lemma_movement_turn_frame(before, order.last() as int);
        assert(order[order.len() - 1] != k);
    }
}

/// If no two living units share a cell, none do after a movement turn.
pub proof fn lemma_movement_turn_keeps_units_apart(s: Seq<Character>, mover: int)
    requires
        no_overlap(s),
    ensures
        no_overlap(movement_turn(s, mover)),
{
    let after = movement_turn(s, mover);
    lemma_movement_turn_frame(s, mover);
    assert forall|a: int, b: int|
        0 <= a < after.len() && 0 <= b < after.len() && a != b && (#[trigger] after[a]).alive() && (
        #[trigger] after[b]).alive() implies !after[a].shares_cell_with(after[b]) by {
        assert(s[a].alive() && s[b].alive());
        if a == mover {
            if after[a].x != s[a].x || after[a].y != s[a].y {
                assert(!blocks(s, mover, b, after[a].x as int, after[a].y as int));
            }
        } else if b == mover {
            if after[b].x != s[b].x || after[b].y != s[b].y {
                assert(!blocks(s, mover, a, after[b].x as int, after[b].y as int));
            }
        }
    }
}

/// If no two living units share a cell before a movement pass, none do
/// after it, whatever the turn order.
pub proof fn lemma_movement_pass_keeps_units_apart(s: Seq<Character>, order: Seq<usize>)
    requires
        no_overlap(s),
    ensures
        no_overlap(movement_pass(s, order)),
    decreases order.len(),
{
    if order.len() > 0 {
        lemma_movement_pass_keeps_units_apart(s, order.drop_last());
        lemma_movement_turn_keeps_units_apart(
            movement_pass(s, order.drop_last()),
            order.last() as int,
        );
    }
}

/// Movement cooldowns and rates are all zero or above.
pub open spec fn movement_cooldowns_nonnegative(s: Seq<Character>) -> bool {
    forall|k: int|
        0 <= k < s.len() ==> (#[trigger] s[k]).movement_cooldown >= 0 && s[k].movement_rate >= 0
}

/// Unit `mover` has nowhere to step: it has no living enemy, or another
/// living unit stands on the cell next to it in the enemy's direction.
pub open spec fn step_refused(s: Seq<Character>, mover: int) -> bool {
    match nearest_enemy(s, mover) {
        None => true,
        Some(j) => cell_taken(
            s,
            mover,
            s[mover].x + step_toward(s[mover].x as int, s[j].x as int),
            s[mover].y + step_toward(s[mover].y as int, s[j].y as int),
        ),
    }
}

/// A movement turn leaves every movement cooldown at zero or above, but
/// for one case: a unit at rest whose cooldown is already spent and whose
/// step is refused goes on cooling down, below zero.
pub proof fn lemma_movement_turn_keeps_cooldowns(s: Seq<Character>, mover: int)
    requires
        movement_cooldowns_nonnegative(s),
        !(0 <= mover < s.len() && at_rest(s[mover]) && s[mover].movement_cooldown == 0
            && step_refused(s, mover)),
    ensures
        movement_cooldowns_nonnegative(movement_turn(s, mover)),
{
    let after = movement_turn(s, mover);
    lemma_movement_turn_frame(s, mover);
    assert forall|k: int| 0 <= k < after.len() implies (#[trigger] after[k]).movement_cooldown >= 0
        && after[k].movement_rate >= 0 by {
        assert(s[k].movement_cooldown >= 0 && s[k].movement_rate >= 0);
    }
}

/// A movement pass in which every unit has at most one turn leaves every
/// movement cooldown at zero or above, provided that no unit at rest
/// starts the pass with its cooldown already spent.
pub proof fn lemma_movement_pass_keeps_cooldowns(s: Seq<Character>, order: Seq<usize>)
    requires
        movement_cooldowns_nonnegative(s),
        order.no_duplicates(),
        forall|k: int| 0 <= k < s.len() && at_rest(#[trigger] s[k]) ==> s[k].movement_cooldown >= 1,
    ensures
        movement_cooldowns_nonnegative(movement_pass(s, order)),
    decreases order.len(),
{
    if order.len() > 0 {
        let earlier = order.drop_last();
        let mover = order.last() as int;
        let before = movement_pass(s, earlier);
        lemma_movement_pass_keeps_cooldowns(s, earlier);
        lemma_movement_pass_frame(s, earlier);
        if 0 <= mover < s.len() {
            assert forall|t: int| 0 <= t < earlier.len() implies earlier[t] != mover by {
                assert(earlier[t] == order[t]);
                assert(order[order.len() - 1] == mover);
            }
            lemma_movement_pass_untouched(s, earlier, mover);
        }
        lemma_movement_turn_keeps_cooldowns(before, mover);
    }
}

/// Gives the units named in `order` their movement turns, in that order.
pub fn move_in_order(pieces: &mut Vec<Character>, order: &Vec<usize>)
    requires
        order@.no_duplicates(),
        forall|k: int| 0 <= k < order.len() ==> #[trigger] order[k] < old(pieces).len(),
        movement_defined(old(pieces)@),
    ensures
        final(pieces)@ == movement_pass(old(pieces)@, order@),
{
    let mut done: usize = 0;
    while done < order.len()
        invariant
            done <= order.len(),
            order@.no_duplicates(),
            forall|k: int| 0 <= k < order.len() ==> #[trigger] order[k] < old(pieces).len(),
            movement_defined(old(pieces)@),
            pieces.len() == old(pieces).len(),
            pieces@ == movement_pass(old(pieces)@, order@.take(done as int)),
        decreases order.len() - done,
    {
        let mover: usize = order[done];
        proof {
            let earlier = order@.take(done as int);
            assert forall|t: int| 0 <= t < earlier.len() implies earlier[t] != mover by {
                assert(earlier[t] == order[t]);
            }
            lemma_movement_pass_untouched(old(pieces)@, earlier, mover as int);
            assert(order@.take(done + 1).drop_last() =~= earlier);
            assert(order@.take(done + 1).last() == mover);
        }
        take_movement_turn(pieces, mover);
        done = done + 1;
        proof {
            lemma_movement_pass_frame(old(pieces)@, order@.take(done as int));
        }
    }
    assert(order@.take(done as int) =~= order@);
}

/// The movement resolver: gives every unit one movement turn, in a freshly
/// shuffled order. Whatever the order, only places and movement cooldowns
/// change, dead units stay as they are, and units that stood apart still
/// stand apart. Cooldowns that were zero or above stay so, unless a unit
/// at rest began the pass with its cooldown already spent.
pub fn update_movement(pieces: &mut Vec<Character>)
    requires
        movement_defined(old(pieces)@),
    ensures
        exists|order: Seq<usize>|
            is_turn_order(order, old(pieces).len() as nat) && final(pieces)@ == #[trigger] movement_pass(
                old(pieces)@,
                order,
            ),
        final(pieces).len() == old(pieces).len(),
        forall|k: int|
            0 <= k < old(pieces).len() && !old(pieces)[k].alive() ==> final(pieces)[k] == old(
                pieces,
            )[k],
        forall|k: int|
            0 <= k < old(pieces).len() ==> final(pieces)[k] == (Character {
                x: final(pieces)[k].x,
                y: final(pieces)[k].y,
                movement_cooldown: final(pieces)[k].movement_cooldown,
                ..old(pieces)[k]
            }),
        no_overlap(old(pieces)@) ==> no_overlap(final(pieces)@),
        all_wf(old(pieces)@) ==> all_wf(final(pieces)@),
        movement_cooldowns_nonnegative(old(pieces)@) && (forall|k: int|
            0 <= k < old(pieces).len() && at_rest(#[trigger] old(pieces)[k]) ==> old(
                pieces,
            )[k].movement_cooldown >= 1) ==> movement_cooldowns_nonnegative(final(pieces)@),
{
    let order: Vec<usize> = shuffled_order(pieces.len());
    move_in_order(pieces, &order);
    proof {
        lemma_movement_pass_frame(old(pieces)@, order@);
        if all_wf(old(pieces)@) {
            assert forall|i: int| 0 <= i < pieces.len() implies (#[trigger] pieces[i]).wf() by {
                assert(old(pieces)[i].wf());
            }
        }
        if no_overlap(old(pieces)@) {
            lemma_movement_pass_keeps_units_apart(old(pieces)@, order@);
        }
        if movement_cooldowns_nonnegative(old(pieces)@) && (forall|k: int|
            0 <= k < old(pieces).len() && at_rest(#[trigger] old(pieces)[k]) ==> old(
                pieces,
            )[k].movement_cooldown >= 1) {
            lemma_movement_pass_keeps_cooldowns(old(pieces)@, order@);
        }
    }
}

} // verus!
