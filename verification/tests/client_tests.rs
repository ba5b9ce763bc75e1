use battle_sim::client::{
    address_entered, apply_snapshot, count_living, edit_line, log_tail_start, on_key,
    should_poll, spawn_request, ClientAction, CommandState, Key, LineEcho, LineKey, LOG_TAIL,
};
use battle_sim::codec::encode;
use battle_sim::entity::{Character, Faction, UnitClass};
use battle_sim::protocol::{handle_request, parse_command, Command};

#[test]
fn menu_keys_host_connect_chat_and_quit() {
    assert_eq!(
        on_key(CommandState::Menu, Key::Char('h')),
        (CommandState::MainGame, ClientAction::Host)
    );
    assert_eq!(
        on_key(CommandState::Menu, Key::Char('c')),
        (CommandState::Menu, ClientAction::AskAddress)
    );
    assert_eq!(
        on_key(CommandState::Menu, Key::Char('t')),
        (CommandState::Chat, ClientAction::Nothing)
    );
    assert_eq!(
        on_key(CommandState::Menu, Key::Char('q')),
        (CommandState::Menu, ClientAction::Quit)
    );
}

#[test]
fn menu_ignores_every_other_key() {
    for key in [Key::Char('x'), Key::Char('H'), Key::Char('1'), Key::Esc, Key::Other] {
        assert_eq!(on_key(CommandState::Menu, key), (CommandState::Menu, ClientAction::Nothing));
    }
}

#[test]
fn game_keys_select_a_class_or_return_to_the_menu() {
    assert_eq!(
        on_key(CommandState::MainGame, Key::Char('q')),
        (CommandState::Menu, ClientAction::Nothing)
    );
    for c in ['b', 'a', 'g', 'x', '5', ' '] {
        assert_eq!(
            on_key(CommandState::MainGame, Key::Char(c)),
            (CommandState::CharacterSelected(c), ClientAction::Nothing)
        );
    }
    assert_eq!(
        on_key(CommandState::MainGame, Key::Esc),
        (CommandState::MainGame, ClientAction::Nothing)
    );
    assert_eq!(
        on_key(CommandState::MainGame, Key::Other),
        (CommandState::MainGame, ClientAction::Nothing)
    );
}

#[test]
fn a_digit_after_a_class_asks_for_the_unit() {
    assert_eq!(
        on_key(CommandState::CharacterSelected('b'), Key::Char('1')),
        (CommandState::MainGame, ClientAction::Spawn { class: UnitClass::Barbarian, row: 1 })
    );
    assert_eq!(
        on_key(CommandState::CharacterSelected('a'), Key::Char('5')),
        (CommandState::MainGame, ClientAction::Spawn { class: UnitClass::Archer, row: 5 })
    );
    assert_eq!(
        on_key(CommandState::CharacterSelected('g'), Key::Char('9')),
        (CommandState::MainGame, ClientAction::Spawn { class: UnitClass::Giant, row: 9 })
    );
}

#[test]
fn a_chosen_class_waits_for_a_digit_or_escape() {
    let chosen = CommandState::CharacterSelected('g');
    for key in [Key::Char('0'), Key::Char('a'), Key::Char('q'), Key::Char(':'), Key::Other] {
        assert_eq!(on_key(chosen, key), (chosen, ClientAction::Nothing));
    }
    assert_eq!(on_key(chosen, Key::Esc), (CommandState::MainGame, ClientAction::Nothing));
}

#[test]
fn a_choice_that_names_no_class_is_dropped_at_the_next_key() {
    for c in ['x', 'B', '1', ' '] {
        for key in [Key::Char('5'), Key::Char('q'), Key::Esc, Key::Other] {
            assert_eq!(
                on_key(CommandState::CharacterSelected(c), key),
                (CommandState::MainGame, ClientAction::Nothing)
            );
        }
    }
}

#[test]
fn an_entered_address_joins_as_red() {
    assert_eq!(address_entered(true), (CommandState::MainGame, Some(Faction::Red)));
    assert_eq!(address_entered(false), (CommandState::Menu, None));
}

#[test]
fn spawn_requests_are_three_characters() {
    assert_eq!(spawn_request(Faction::Green, UnitClass::Barbarian, 5), b"gb5".to_vec());
    assert_eq!(spawn_request(Faction::Red, UnitClass::Giant, 1), b"rg1".to_vec());
    assert_eq!(spawn_request(Faction::Red, UnitClass::Archer, 9), b"ra9".to_vec());
}

#[test]
fn the_server_reads_a_spawn_request_as_it_was_meant() {
    for color in [Faction::Green, Faction::Red] {
        for class in [UnitClass::Barbarian, UnitClass::Archer, UnitClass::Giant] {
            for row in 1..=9u8 {
                let request = spawn_request(color, class, row);
                assert_eq!(
                    parse_command(&request),
                    Command::Spawn { color, class, row: 2 * row as i16 }
                );
                let mut pieces: Vec<Character> = Vec::new();
                assert!(handle_request(&mut pieces, &request).is_empty());
                assert_eq!(
                    pieces,
                    vec![Character::from_template(
                        class,
                        2 * row as i16,
                        color,
                        pieces[0].unique_id
                    )]
                );
            }
        }
    }
}

#[test]
fn polling_needs_a_game_and_a_server() {
    assert!(!should_poll(CommandState::Menu, true));
    assert!(!should_poll(CommandState::Menu, false));
    assert!(should_poll(CommandState::MainGame, true));
    assert!(!should_poll(CommandState::MainGame, false));
    assert!(should_poll(CommandState::CharacterSelected('b'), true));
    assert!(should_poll(CommandState::Chat, true));
    assert!(!should_poll(CommandState::Chat, false));
}

#[test]
fn a_good_snapshot_replaces_the_local_copy() {
    let mut local = vec![Character::from_template(UnitClass::Giant, 2, Faction::Red, 1)];
    let remote = vec![
        Character::from_template(UnitClass::Archer, 4, Faction::Green, 2),
        Character::from_template(UnitClass::Barbarian, 6, Faction::Red, 3),
    ];
    assert!(apply_snapshot(&mut local, &encode(&remote)));
    assert_eq!(local, remote);
    assert!(apply_snapshot(&mut local, &encode(&Vec::new())));
    assert!(local.is_empty());
}

#[test]
fn a_bad_snapshot_leaves_the_local_copy_alone() {
    let start = vec![Character::from_template(UnitClass::Giant, 2, Faction::Red, 1)];
    let mut local = start.clone();
    assert!(!apply_snapshot(&mut local, &[]));
    assert_eq!(local, start);
    assert!(!apply_snapshot(&mut local, b"00000000000000000000000000000abc"));
    assert_eq!(local, start);
    let mut cut = encode(&start);
    cut.pop();
    assert!(!apply_snapshot(&mut local, &cut));
    assert_eq!(local, start);
}

#[test]
fn living_units_are_counted_by_faction() {
    let mut pieces = vec![
        Character::from_template(UnitClass::Giant, 2, Faction::Red, 1),
        Character::from_template(UnitClass::Archer, 4, Faction::Green, 2),
        Character::from_template(UnitClass::Barbarian, 6, Faction::Red, 3),
        Character::from_template(UnitClass::Barbarian, 8, Faction::Red, 4),
    ];
    assert_eq!(count_living(&pieces, Faction::Red), 3);
    assert_eq!(count_living(&pieces, Faction::Green), 1);
    pieces[0].hp = 0;
    pieces[1].hp = -5;
    pieces[2].hp = 1;
    assert_eq!(count_living(&pieces, Faction::Red), 2);
    assert_eq!(count_living(&pieces, Faction::Green), 0);
    assert_eq!(count_living(&Vec::new(), Faction::Green), 0);
}

#[test]
fn the_log_tail_shows_the_last_lines_of_a_long_log_only() {
    assert_eq!(LOG_TAIL, 20);
    assert_eq!(log_tail_start(0), 0);
    assert_eq!(log_tail_start(1), 1);
    assert_eq!(log_tail_start(20), 20);
    assert_eq!(log_tail_start(21), 1);
    assert_eq!(log_tail_start(100), 80);
    assert_eq!(log_tail_start(usize::MAX), usize::MAX - 20);
}

#[test]
fn typing_builds_the_line() {
    let mut line: Vec<char> = "localhost:".chars().collect();
    assert_eq!(edit_line(&mut line, LineKey::Char('8')), LineEcho::Typed('8'));
    assert_eq!(edit_line(&mut line, LineKey::Char('0')), LineEcho::Typed('0'));
    assert_eq!(edit_line(&mut line, LineKey::Other), LineEcho::Nothing);
    assert_eq!(line.iter().collect::<String>(), "localhost:80");
    assert_eq!(edit_line(&mut line, LineKey::Backspace), LineEcho::Erased);
    assert_eq!(line.iter().collect::<String>(), "localhost:8");
    assert_eq!(edit_line(&mut line, LineKey::Enter), LineEcho::Done);
    assert_eq!(line.iter().collect::<String>(), "localhost:8");
}

#[test]
fn backspace_on_an_empty_line_does_nothing() {
    let mut line: Vec<char> = vec!['x'];
    assert_eq!(edit_line(&mut line, LineKey::Backspace), LineEcho::Erased);
    assert!(line.is_empty());
    assert_eq!(edit_line(&mut line, LineKey::Backspace), LineEcho::Nothing);
    assert!(line.is_empty());
}
