use battle_sim::codec::decode;
use battle_sim::entity::{generate_barbarian, Character, Faction, UnitClass};
use battle_sim::server::{server_step, tick, ServerEvent};

fn overlapping(pieces: &Vec<Character>) -> bool {
    for a in 0..pieces.len() {
        for b in 0..pieces.len() {
            if a != b
                && pieces[a].hp > 0
                && pieces[b].hp > 0
                && pieces[a].x == pieces[b].x
                && pieces[a].y == pieces[b].y
            {
                return true;
            }
        }
    }
    false
}

fn living(pieces: &Vec<Character>) -> usize {
    pieces.iter().filter(|c| c.hp > 0).count()
}

#[test]
fn a_tick_with_no_unit_does_nothing() {
    let mut pieces: Vec<Character> = Vec::new();
    tick(&mut pieces);
    assert!(pieces.is_empty());
}

#[test]
fn a_tick_with_a_single_unit_does_nothing() {
    let lonely = Character::from_template(UnitClass::Barbarian, 10, Faction::Green, 3);
    let mut pieces = vec![lonely];
    for _ in 0..20 {
        tick(&mut pieces);
    }
    assert_eq!(pieces, vec![lonely]);
}

#[test]
fn a_tick_runs_movement_and_then_combat() {
    let mut green = Character::from_template(UnitClass::Barbarian, 10, Faction::Green, 3);
    green.x = 10;
    green.movement_cooldown = 1;
    green.attack_cooldown = 0;
    let mut red = Character::from_template(UnitClass::Giant, 10, Faction::Red, 4);
    red.x = 12;
    let mut pieces = vec![green, red];
    tick(&mut pieces);
    assert_eq!(pieces[0].x, 11);
    assert_eq!(pieces[0].movement_cooldown, 7);
    assert_eq!(pieces[0].attack_cooldown, 5);
    assert!(pieces[0].is_attacking);
    assert!(pieces[1].hp == 30 || (24 <= pieces[1].hp && pieces[1].hp <= 29));
    assert_eq!(pieces[1].x, 12);
    assert_eq!(pieces[1].movement_cooldown, 29);
    assert_eq!(pieces[1].attack_cooldown, 14);
}

#[test]
fn two_barbarians_fight_until_exactly_one_survives() {
    for _ in 0..20 {
        let mut pieces = vec![
            generate_barbarian(10, Faction::Green),
            generate_barbarian(10, Faction::Red),
        ];
        assert_eq!((pieces[0].x, pieces[1].x), (1, 68));
        let mut ticks = 0;
        while living(&pieces) == 2 {
            tick(&mut pieces);
            ticks += 1;
            assert!(!overlapping(&pieces));
            assert!(ticks < 100_000);
            assert_eq!(pieces.len(), 2);
            assert_eq!((pieces[0].y, pieces[1].y), (10, 10));
            assert!(pieces[0].x < pieces[1].x);
        }
        assert_eq!(living(&pieces), 1);
        assert_eq!(pieces[1].x - pieces[0].x, 1);
        assert!(ticks >= 33 * 7);
        let survivor = if pieces[0].hp > 0 { pieces[0] } else { pieces[1] };
        assert!(survivor.hp > 0 && survivor.hp <= 12);
        assert!(!survivor.is_attacking);
        let after = pieces.clone();
        tick(&mut pieces);
        let fallen = if after[0].hp > 0 { 1 } else { 0 };
        assert_eq!(pieces[fallen], after[fallen]);
        assert_eq!(living(&pieces), 1);
    }
}

#[test]
fn a_larger_battle_keeps_units_apart_and_the_dead_untouched() {
    let mut pieces = Vec::new();
    for row in 1..=9i16 {
        pieces.push(Character::from_template(UnitClass::Barbarian, row * 2, Faction::Green, 0));
        pieces.push(Character::from_template(UnitClass::Archer, row * 2, Faction::Red, 0));
    }
    for _ in 0..3000 {
        let before = pieces.clone();
        tick(&mut pieces);
        assert!(!overlapping(&pieces));
        for k in 0..pieces.len() {
            if before[k].hp <= 0 {
                assert_eq!(pieces[k], before[k]);
            }
            assert!(pieces[k].hp <= before[k].hp);
            assert!(pieces[k].attack_cooldown >= 0);
        }
    }
}

#[test]
fn a_tick_event_advances_the_battle_and_sends_nothing() {
    let mut green = Character::from_template(UnitClass::Barbarian, 10, Faction::Green, 3);
    green.movement_cooldown = 1;
    let red = Character::from_template(UnitClass::Barbarian, 10, Faction::Red, 4);
    let mut pieces = vec![green, red];
    let reply = server_step(&mut pieces, &ServerEvent::Tick);
    assert!(reply.is_empty());
    assert_eq!(pieces[0].x, 2);
    assert_eq!(pieces[1].movement_cooldown, 6);
    assert_eq!(pieces[1].attack_cooldown, 4);
}

#[test]
fn a_request_event_is_carried_out_and_answered() {
    let mut pieces: Vec<Character> = Vec::new();
    assert!(server_step(&mut pieces, &ServerEvent::Request(b"ra4".to_vec())).is_empty());
    assert_eq!(pieces.len(), 1);
    assert!(server_step(&mut pieces, &ServerEvent::Request(b"bogus".to_vec())).is_empty());
    assert_eq!(pieces.len(), 1);
    let snapshot = server_step(&mut pieces, &ServerEvent::Request(b"update".to_vec()));
    assert_eq!(decode(&snapshot), Some(pieces.clone()));
    let id = server_step(&mut pieces, &ServerEvent::Request(b"new game".to_vec()));
    assert_eq!(id.len(), 32);
    assert_eq!(pieces[0].denotation, 'A');
    assert_eq!((pieces[0].x, pieces[0].y), (68, 8));
}
