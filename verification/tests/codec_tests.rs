use battle_sim::codec::{decode, encode, HEADER_LEN, RECORD_LEN};
use battle_sim::entity::{Character, DamageRange, Faction, UnitClass};

fn barbarian() -> Character {
    Character::from_template(UnitClass::Barbarian, 10, Faction::Green, 7)
}

fn barbarian_record() -> Vec<u8> {
    vec![
        7, 0, 1, 0, 10, 0, 66, 0, 0, 0, 0, 12, 0, 3, 0, 1, 0, 7, 0, 9, 0, 1, 0, 5, 0, 5, 0, 7, 0,
        7, 0, 0,
    ]
}

fn odd_unit() -> Character {
    Character {
        unique_id: 65535,
        x: -2,
        y: i16::MIN,
        denotation: '\u{10FFFF}',
        color: Faction::Red,
        hp: -1,
        attack_skill: i16::MAX,
        damage_range: DamageRange { start: 9, end: -9 },
        defence_class: 256,
        attack_range: -256,
        attack_rate: 0,
        attack_cooldown: -32767,
        movement_rate: 255,
        movement_cooldown: 1,
        is_attacking: true,
    }
}

#[test]
fn empty_collection_is_just_a_zero_count() {
    let bytes = encode(&Vec::new());
    assert_eq!(bytes, vec![0u8; 8]);
    assert_eq!(decode(&bytes), Some(Vec::new()));
}

#[test]
fn one_unit_is_a_count_and_one_record() {
    let bytes = encode(&vec![barbarian()]);
    let mut expected = vec![1u8, 0, 0, 0, 0, 0, 0, 0];
    expected.extend(barbarian_record());
    assert_eq!(bytes, expected);
    assert_eq!(bytes.len(), HEADER_LEN + RECORD_LEN);
}

#[test]
fn signed_fields_are_written_in_twos_complement() {
    let bytes = encode(&vec![odd_unit()]);
    let expected: Vec<u8> = vec![
        1, 0, 0, 0, 0, 0, 0, 0, 255, 255, 254, 255, 0, 128, 255, 255, 16, 0, 1, 255, 255, 255,
        127, 9, 0, 247, 255, 0, 1, 0, 255, 0, 0, 1, 128, 255, 0, 1, 0, 1,
    ];
    assert_eq!(bytes, expected);
}

#[test]
fn decoding_gives_back_what_was_encoded() {
    let mut dead = Character::from_template(UnitClass::Giant, 4, Faction::Red, 64999);
    dead.hp = 0;
    let pieces = vec![
        barbarian(),
        odd_unit(),
        dead,
        Character::from_template(UnitClass::Archer, 18, Faction::Red, 1),
    ];
    let bytes = encode(&pieces);
    assert_eq!(bytes.len(), 8 + 4 * 32);
    assert_eq!(decode(&bytes), Some(pieces));
}

#[test]
fn decoding_gives_back_an_all_dead_collection() {
    let mut pieces = Vec::new();
    for k in 0..40i16 {
        let mut c = Character::from_template(UnitClass::Archer, k, Faction::Green, k as u16);
        c.hp = -k;
        pieces.push(c);
    }
    assert_eq!(decode(&encode(&pieces)), Some(pieces));
}

#[test]
fn decoding_keeps_every_glyph() {
    for glyph in ['\0', 'B', '\u{7f}', '\u{80}', '\u{2588}', '\u{d7ff}', '\u{e000}', '\u{10ffff}'] {
        let mut c = barbarian();
        c.denotation = glyph;
        assert_eq!(decode(&encode(&vec![c])), Some(vec![c]));
    }
}

#[test]
fn decoding_reads_a_hand_written_snapshot() {
    let mut bytes = vec![2u8, 0, 0, 0, 0, 0, 0, 0];
    bytes.extend(barbarian_record());
    bytes.extend(barbarian_record());
    assert_eq!(decode(&bytes), Some(vec![barbarian(), barbarian()]));
}

#[test]
fn decoding_refuses_a_missing_or_short_count() {
    assert_eq!(decode(&[]), None);
    assert_eq!(decode(&[0, 0, 0, 0, 0, 0, 0]), None);
}

#[test]
fn decoding_refuses_a_count_that_does_not_match_the_length() {
    let good = encode(&vec![barbarian(), barbarian()]);
    let mut short = good.clone();
    short.pop();
    assert_eq!(decode(&short), None);
    let mut long = good.clone();
    long.push(0);
    assert_eq!(decode(&long), None);
    let mut fewer = good.clone();
    fewer[0] = 1;
    assert_eq!(decode(&fewer), None);
    let mut more = good.clone();
    more[0] = 3;
    assert_eq!(decode(&more), None);
    let mut huge = good.clone();
    huge[7] = 1;
    assert_eq!(decode(&huge), None);
    assert_eq!(decode(&good[..8 + 32]), None);
    assert_eq!(decode(&[1, 0, 0, 0, 0, 0, 0, 0]), None);
}

#[test]
fn decoding_refuses_an_invalid_glyph() {
    let good = encode(&vec![barbarian()]);
    let mut surrogate = good.clone();
    surrogate[8 + 6] = 0x00;
    surrogate[8 + 7] = 0xD8;
    assert_eq!(decode(&surrogate), None);
    let mut beyond = good.clone();
    beyond[8 + 6] = 0x00;
    beyond[8 + 7] = 0x00;
    beyond[8 + 8] = 0x11;
    assert_eq!(decode(&beyond), None);
    let mut high = good.clone();
    high[8 + 9] = 1;
    assert_eq!(decode(&high), None);
}

#[test]
fn decoding_refuses_an_invalid_faction_or_flag() {
    let good = encode(&vec![barbarian(), barbarian()]);
    let mut faction = good.clone();
    faction[8 + 32 + 10] = 2;
    assert_eq!(decode(&faction), None);
    let mut flag = good.clone();
    flag[8 + 31] = 2;
    assert_eq!(decode(&flag), None);
    let mut red = good.clone();
    red[8 + 10] = 1;
    red[8 + 31] = 1;
    let mut first = barbarian();
    first.color = Faction::Red;
    first.is_attacking = true;
    assert_eq!(decode(&red), Some(vec![first, barbarian()]));
}

#[test]
fn a_snapshot_cut_off_by_a_bounded_read_counts_as_no_data() {
    let mut pieces = Vec::new();
    for k in 0..32 {
        pieces.push(Character::from_template(UnitClass::Barbarian, 2, Faction::Green, k));
    }
    let bytes = encode(&pieces);
    assert_eq!(bytes.len(), 1032);
    assert_eq!(decode(&bytes[..1024]), None);
    assert_eq!(decode(&bytes), Some(pieces));
}
