use battle_sim::entity::{Character, Faction, UnitClass};
use battle_sim::movement::{
    calc_distance, find_nearest_enemy, is_cell_taken, move_in_order, take_movement_turn,
    update_movement,
};

fn unit(class: UnitClass, color: Faction, x: i16, y: i16) -> Character {
    let mut c = Character::from_template(class, y, color, 0);
    c.x = x;
    c
}

fn due(mut c: Character) -> Character {
    c.movement_cooldown = 1;
    c
}

fn overlapping(pieces: &Vec<Character>) -> bool {
    for a in 0..pieces.len() {
        for b in 0..pieces.len() {
            if a != b
                && pieces[a].hp > 0
                && pieces[b].hp > 0
                && pieces[a].x == pieces[b].x
                && pieces[a].y == pieces[b].y
            {
                return true;
            }
        }
    }
    false
}

#[test]
fn distance_rank_is_the_squared_distance() {
    let a = unit(UnitClass::Barbarian, Faction::Green, 0, 0);
    let b = unit(UnitClass::Barbarian, Faction::Red, 3, 4);
    assert_eq!(calc_distance(&a, &b), 25);
    assert_eq!(calc_distance(&b, &a), 25);
}

#[test]
fn distance_rank_on_the_same_row_is_zero() {
    let a = unit(UnitClass::Barbarian, Faction::Green, 1, 6);
    let b = unit(UnitClass::Barbarian, Faction::Red, 68, 6);
    assert_eq!(calc_distance(&a, &b), 0);
}

#[test]
fn distance_rank_covers_the_whole_coordinate_range() {
    let a = unit(UnitClass::Barbarian, Faction::Green, i16::MIN, i16::MIN);
    let b = unit(UnitClass::Barbarian, Faction::Red, i16::MAX, i16::MAX);
    assert_eq!(calc_distance(&a, &b), 2 * 65535i64 * 65535i64);
}

#[test]
fn nearest_enemy_is_the_closest_living_enemy() {
    let pieces = vec![
        unit(UnitClass::Barbarian, Faction::Green, 10, 10),
        unit(UnitClass::Barbarian, Faction::Red, 20, 12),
        unit(UnitClass::Barbarian, Faction::Red, 12, 11),
        unit(UnitClass::Barbarian, Faction::Green, 10, 11),
    ];
    assert_eq!(find_nearest_enemy(&pieces, 0), Some(2));
}

#[test]
fn nearest_enemy_prefers_the_own_row() {
    let pieces = vec![
        unit(UnitClass::Barbarian, Faction::Green, 1, 10),
        unit(UnitClass::Barbarian, Faction::Red, 2, 11),
        unit(UnitClass::Barbarian, Faction::Red, 68, 10),
    ];
    assert_eq!(find_nearest_enemy(&pieces, 0), Some(2));
}

#[test]
fn nearest_enemy_tie_goes_to_the_lowest_index() {
    let pieces = vec![
        unit(UnitClass::Barbarian, Faction::Green, 10, 10),
        unit(UnitClass::Barbarian, Faction::Red, 13, 14),
        unit(UnitClass::Barbarian, Faction::Red, 14, 13),
        unit(UnitClass::Barbarian, Faction::Red, 5, 10),
        unit(UnitClass::Barbarian, Faction::Red, 60, 10),
    ];
    assert_eq!(find_nearest_enemy(&pieces[..2].to_vec(), 0), Some(1));
    assert_eq!(find_nearest_enemy(&pieces[..3].to_vec(), 0), Some(1));
    assert_eq!(find_nearest_enemy(&pieces, 0), Some(3));
}

#[test]
fn nearest_enemy_skips_the_dead_and_the_own_side() {
    let mut dead = unit(UnitClass::Barbarian, Faction::Red, 11, 10);
    dead.hp = 0;
    let pieces = vec![
        unit(UnitClass::Barbarian, Faction::Green, 10, 10),
        dead,
        unit(UnitClass::Barbarian, Faction::Green, 10, 11),
    ];
    assert_eq!(find_nearest_enemy(&pieces, 0), None);
}

#[test]
fn cell_is_taken_only_by_other_living_units() {
    let mut dead = unit(UnitClass::Barbarian, Faction::Red, 5, 5);
    dead.hp = -3;
    let pieces = vec![
        unit(UnitClass::Barbarian, Faction::Green, 4, 4),
        dead,
        unit(UnitClass::Archer, Faction::Green, 6, 6),
    ];
    assert!(!is_cell_taken(&pieces, 0, 4, 4));
    assert!(is_cell_taken(&pieces, 1, 4, 4));
    assert!(!is_cell_taken(&pieces, 0, 5, 5));
    assert!(is_cell_taken(&pieces, 0, 6, 6));
    assert!(!is_cell_taken(&pieces, 2, 6, 6));
    assert!(!is_cell_taken(&pieces, 0, 7, 7));
}

#[test]
fn a_unit_that_is_not_due_only_cools_down() {
    let mut pieces = vec![
        unit(UnitClass::Barbarian, Faction::Green, 1, 10),
        unit(UnitClass::Barbarian, Faction::Red, 68, 10),
    ];
    let before = pieces.clone();
    take_movement_turn(&mut pieces, 0);
    assert_eq!(pieces[0].movement_cooldown, 6);
    assert_eq!((pieces[0].x, pieces[0].y), (1, 10));
    assert_eq!(pieces[1], before[1]);
    let mut expected = before[0];
    expected.movement_cooldown = 6;
    assert_eq!(pieces[0], expected);
}

#[test]
fn a_due_unit_steps_on_both_axes_and_starts_a_new_cooldown() {
    let mut pieces = vec![
        due(unit(UnitClass::Barbarian, Faction::Green, 10, 10)),
        unit(UnitClass::Barbarian, Faction::Red, 30, 4),
    ];
    take_movement_turn(&mut pieces, 0);
    assert_eq!((pieces[0].x, pieces[0].y), (11, 9));
    assert_eq!(pieces[0].movement_cooldown, 7);
    take_movement_turn(&mut pieces, 1);
    assert_eq!((pieces[1].x, pieces[1].y), (30, 4));
    assert_eq!(pieces[1].movement_cooldown, 6);
}

#[test]
fn a_due_unit_steps_along_one_axis_when_aligned() {
    let mut pieces = vec![
        due(unit(UnitClass::Giant, Faction::Red, 68, 10)),
        unit(UnitClass::Barbarian, Faction::Green, 1, 10),
    ];
    take_movement_turn(&mut pieces, 0);
    assert_eq!((pieces[0].x, pieces[0].y), (67, 10));
    assert_eq!(pieces[0].movement_cooldown, 30);
}

#[test]
fn a_refused_step_changes_neither_place_nor_restarts_the_cooldown() {
    let mut pieces = vec![
        due(unit(UnitClass::Barbarian, Faction::Green, 10, 10)),
        unit(UnitClass::Archer, Faction::Green, 11, 10),
        unit(UnitClass::Barbarian, Faction::Red, 30, 10),
    ];
    take_movement_turn(&mut pieces, 0);
    assert_eq!((pieces[0].x, pieces[0].y), (10, 10));
    assert_eq!(pieces[0].movement_cooldown, 0);
    take_movement_turn(&mut pieces, 0);
    assert_eq!((pieces[0].x, pieces[0].y), (10, 10));
    assert_eq!(pieces[0].movement_cooldown, -1);
}

#[test]
fn a_cell_held_by_an_enemy_refuses_the_step_too() {
    let mut pieces = vec![
        due(unit(UnitClass::Barbarian, Faction::Green, 10, 10)),
        unit(UnitClass::Barbarian, Faction::Red, 11, 10),
    ];
    take_movement_turn(&mut pieces, 0);
    assert_eq!((pieces[0].x, pieces[0].y), (10, 10));
    assert_eq!(pieces[0].movement_cooldown, 0);
}

#[test]
fn a_cell_held_by_a_dead_unit_is_free() {
    let mut corpse = unit(UnitClass::Archer, Faction::Green, 11, 10);
    corpse.hp = 0;
    let mut pieces = vec![
        due(unit(UnitClass::Barbarian, Faction::Green, 10, 10)),
        corpse,
        unit(UnitClass::Barbarian, Faction::Red, 30, 10),
    ];
    take_movement_turn(&mut pieces, 0);
    assert_eq!((pieces[0].x, pieces[0].y), (11, 10));
    assert_eq!(pieces[0].movement_cooldown, 7);
    assert_eq!(pieces[1], corpse);
}

#[test]
fn a_unit_without_enemies_keeps_cooling_down() {
    let mut pieces = vec![
        due(unit(UnitClass::Barbarian, Faction::Green, 10, 10)),
        unit(UnitClass::Barbarian, Faction::Green, 30, 10),
    ];
    take_movement_turn(&mut pieces, 0);
    assert_eq!((pieces[0].x, pieces[0].y), (10, 10));
    assert_eq!(pieces[0].movement_cooldown, 0);
}

#[test]
fn a_dead_unit_never_moves() {
    let mut dead = due(unit(UnitClass::Barbarian, Faction::Green, 10, 10));
    dead.hp = 0;
    let mut pieces = vec![dead, unit(UnitClass::Barbarian, Faction::Red, 30, 10)];
    take_movement_turn(&mut pieces, 0);
    assert_eq!(pieces[0], dead);
}

#[test]
fn a_fighting_unit_neither_moves_nor_cools_down() {
    let mut busy = due(unit(UnitClass::Barbarian, Faction::Green, 10, 10));
    busy.is_attacking = true;
    let mut pieces = vec![busy, unit(UnitClass::Barbarian, Faction::Red, 30, 10)];
    take_movement_turn(&mut pieces, 0);
    assert_eq!(pieces[0], busy);
}

#[test]
fn the_turn_order_decides_who_gets_a_contested_cell() {
    let start = vec![
        due(unit(UnitClass::Barbarian, Faction::Green, 10, 10)),
        due(unit(UnitClass::Barbarian, Faction::Red, 12, 10)),
    ];
    let mut first = start.clone();
    move_in_order(&mut first, &vec![0, 1]);
    assert_eq!((first[0].x, first[1].x), (11, 12));
    assert_eq!((first[0].movement_cooldown, first[1].movement_cooldown), (7, 0));
    let mut second = start.clone();
    move_in_order(&mut second, &vec![1, 0]);
    assert_eq!((second[0].x, second[1].x), (10, 11));
    assert_eq!((second[0].movement_cooldown, second[1].movement_cooldown), (0, 7));
}

#[test]
fn an_order_may_name_only_some_units() {
    let mut pieces = vec![
        due(unit(UnitClass::Barbarian, Faction::Green, 10, 10)),
        due(unit(UnitClass::Barbarian, Faction::Red, 20, 10)),
    ];
    let before = pieces.clone();
    move_in_order(&mut pieces, &vec![1]);
    assert_eq!(pieces[0], before[0]);
    assert_eq!(pieces[1].x, 19);
    move_in_order(&mut pieces, &vec![]);
    assert_eq!(pieces[1].x, 19);
}

#[test]
fn no_unit_moves_more_than_one_cell_per_pass() {
    for _ in 0..50 {
        let mut pieces = vec![
            due(unit(UnitClass::Barbarian, Faction::Green, 10, 10)),
            due(unit(UnitClass::Archer, Faction::Green, 12, 14)),
            due(unit(UnitClass::Giant, Faction::Red, 40, 3)),
            due(unit(UnitClass::Barbarian, Faction::Red, 41, 18)),
        ];
        let before = pieces.clone();
        update_movement(&mut pieces);
        for k in 0..pieces.len() {
            assert!((pieces[k].x - before[k].x).abs() <= 1);
            assert!((pieces[k].y - before[k].y).abs() <= 1);
            assert_eq!(pieces[k].hp, before[k].hp);
            assert_eq!(pieces[k].attack_cooldown, before[k].attack_cooldown);
        }
    }
}

#[test]
fn movement_never_puts_two_living_units_on_one_cell() {
    for _ in 0..30 {
        let mut pieces = vec![
            unit(UnitClass::Barbarian, Faction::Green, 10, 10),
            unit(UnitClass::Barbarian, Faction::Green, 10, 11),
            unit(UnitClass::Barbarian, Faction::Green, 11, 10),
            unit(UnitClass::Barbarian, Faction::Red, 13, 10),
            unit(UnitClass::Barbarian, Faction::Red, 13, 11),
            unit(UnitClass::Barbarian, Faction::Red, 12, 12),
        ];
        for c in pieces.iter_mut() {
            c.movement_rate = 1;
            c.movement_cooldown = 1;
        }
        assert!(!overlapping(&pieces));
        for _ in 0..40 {
            update_movement(&mut pieces);
            assert!(!overlapping(&pieces));
        }
    }
}

#[test]
fn the_movement_resolver_leaves_dead_units_alone() {
    let mut dead = due(unit(UnitClass::Barbarian, Faction::Green, 10, 10));
    dead.hp = -1;
    for _ in 0..20 {
        let mut pieces = vec![
            dead,
            due(unit(UnitClass::Barbarian, Faction::Red, 12, 10)),
            due(unit(UnitClass::Barbarian, Faction::Green, 30, 10)),
        ];
        update_movement(&mut pieces);
        assert_eq!(pieces[0], dead);
        assert_eq!(pieces[1].x, 13);
        assert_eq!(pieces[2].x, 29);
    }
}

#[test]
fn the_resolver_shuffles_the_turn_order() {
    let start = vec![
        due(unit(UnitClass::Barbarian, Faction::Green, 10, 10)),
        due(unit(UnitClass::Barbarian, Faction::Red, 12, 10)),
    ];
    let mut green_won = false;
    let mut red_won = false;
    for _ in 0..200 {
        let mut pieces = start.clone();
        update_movement(&mut pieces);
        if pieces[0].x == 11 {
            assert_eq!(pieces[1].x, 12);
            green_won = true;
        } else {
            assert_eq!((pieces[0].x, pieces[1].x), (10, 11));
            red_won = true;
        }
    }
    assert!(green_won && red_won);
}

#[test]
fn movement_cooldowns_stay_nonnegative_while_every_step_is_accepted() {
    let mut pieces = vec![
        unit(UnitClass::Barbarian, Faction::Green, 1, 10),
        unit(UnitClass::Archer, Faction::Red, 68, 10),
    ];
    for _ in 0..100 {
        for c in pieces.iter() {
            assert!(c.movement_cooldown >= 1);
        }
        update_movement(&mut pieces);
        for c in pieces.iter() {
            assert!(c.movement_cooldown >= 0);
        }
    }
}
