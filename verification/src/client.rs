//! The player's side: which screen the player is on, what a key press
//! leads to, and how a polled snapshot replaces the local copy of the
//! battle. The client never changes the battle itself; it only sends
//! requests and shows what the last good snapshot held.

use vstd::prelude::*;
use crate::entity::{Character, Faction, UnitClass};
use crate::codec::{decode, decode_snapshot};
use crate::protocol::{
    class_of, parse, Command, DIGIT_ZERO, LETTER_A, LETTER_B, LETTER_G, LETTER_R,
};

verus! {

/// The screen the player is on.
#[derive(Clone, Copy, Debug, PartialEq, Eq, Structural)]
pub enum CommandState {
    Menu,
    MainGame,
    CharacterSelected(char),
    Chat,
}

/// A key press, as far as the client tells keys apart.
#[derive(Clone, Copy, Debug, PartialEq, Eq, Structural)]
pub enum Key {
    Char(char),
    Esc,
    Other,
}

/// What the client has to do after a key press.
#[derive(Clone, Copy, Debug, PartialEq, Eq, Structural)]
pub enum ClientAction {
    /// Nothing.
    Nothing,
    /// Leave the program.
    Quit,
    /// Play green against the local server and open a match there.
    Host,
    /// Ask the player for a server address, then see `address_entered`.
    AskAddress,
    /// Ask the server for a new unit of `class` on the row of digit `row`.
    Spawn { class: UnitClass, row: u8 },
}

/// The unit class that a typed character selects, if any.
pub open spec fn selected_class(c: char) -> Option<UnitClass> {
    if c == 'b' {
        Some(UnitClass::Barbarian)
    } else if c == 'a' {
        Some(UnitClass::Archer)
    } else if c == 'g' {
        Some(UnitClass::Giant)
    } else {
        None
    }
}

/// The row digit that a typed character stands for, if it is `1` to `9`.
pub open spec fn row_digit(c: char) -> Option<u8> {
    if '1' <= c <= '9' {
        Some((c as u32 - '0' as u32) as u8)
    } else {
        None
    }
}

/// The screen and the action that follow a key press.
///
/// In the menu, `h` hosts a match, `c` asks for an address to connect to,
/// `t` opens the chat and `q` quits. In the game, `q` returns to the menu
/// and any other character is taken as the choice of a unit class. With a
/// class chosen, a digit from 1 to 9 sends the spawn request for that row
/// and Esc drops the choice; a choice that names no class is dropped at
/// the next key press, whatever the key.
pub open spec fn key_transition(state: CommandState, key: Key) -> (CommandState, ClientAction) {
    match state {
        CommandState::Menu => match key {
            Key::Char(c) => if c == 'h' {
                (CommandState::MainGame, ClientAction::Host)
            } else if c == 'c' {
                (CommandState::Menu, ClientAction::AskAddress)
            } else if c == 't' {
                (CommandState::Chat, ClientAction::Nothing)
            } else if c == 'q' {
                (CommandState::Menu, ClientAction::Quit)
            } else {
                (CommandState::Menu, ClientAction::Nothing)
            },
            _ => (CommandState::Menu, ClientAction::Nothing),
        },
        CommandState::MainGame => match key {
            Key::Char(c) => if c == 'q' {
                (CommandState::Menu, ClientAction::Nothing)
            } else {
                (CommandState::CharacterSelected(c), ClientAction::Nothing)
            },
            _ => (CommandState::MainGame, ClientAction::Nothing),
        },
        CommandState::CharacterSelected(c) => match selected_class(c) {
            None => (CommandState::MainGame, ClientAction::Nothing),
            Some(class) => match key {
                Key::Char(r) => match row_digit(r) {
                    Some(row) => (CommandState::MainGame, ClientAction::Spawn { class, row }),
                    None => (state, ClientAction::Nothing),
                },
                Key::Esc => (CommandState::MainGame, ClientAction::Nothing),
                Key::Other => (state, ClientAction::Nothing),
            },
        },
        CommandState::Chat => (CommandState::Chat, ClientAction::Nothing),
    }
}

/// Finds the unit class that a typed character selects.
fn class_for(c: char) -> (class: Option<UnitClass>)
    ensures
        class == selected_class(c),
{
    if c == 'b' {
        Some(UnitClass::Barbarian)
    } else if c == 'a' {
        Some(UnitClass::Archer)
    } else if c == 'g' {
        Some(UnitClass::Giant)
    } else {
        None
    }
}

/// Finds the row digit that a typed character stands for.
fn digit_for(c: char) -> (digit: Option<u8>)
    ensures
        digit == row_digit(c),
{
    if '1' <= c && c <= '9' {
        Some((c as u32 - '0' as u32) as u8)
    } else {
        None
    }
}

/// Handles a key press. The chat screen has no behaviour yet, so it
/// accepts no keys.
pub fn on_key(state: CommandState, key: Key) -> (next: (CommandState, ClientAction))
    requires
        state != CommandState::Chat,
    ensures
        next == key_transition(state, key),
{
    match state {
        CommandState::Menu => match key {
            Key::Char(c) => if c == 'h' {
                (CommandState::MainGame, ClientAction::Host)
            } else if c == 'c' {
                (CommandState::Menu, ClientAction::AskAddress)
            } else if c == 't' {
                (CommandState::Chat, ClientAction::Nothing)
            } else if c == 'q' {
                (CommandState::Menu, ClientAction::Quit)
            } else {
                (CommandState::Menu, ClientAction::Nothing)
            },
            _ => (CommandState::Menu, ClientAction::Nothing),
        },
        CommandState::MainGame => match key {
            Key::Char(c) => if c == 'q' {
                (CommandState::Menu, ClientAction::Nothing)
            } else {
                (CommandState::CharacterSelected(c), ClientAction::Nothing)
            },
            _ => (CommandState::MainGame, ClientAction::Nothing),
        },
        CommandState::CharacterSelected(c) => match class_for(c) {
            None => (CommandState::MainGame, ClientAction::Nothing),
            Some(class) => match key {
                Key::Char(r) => match digit_for(r) {
                    Some(row) => (CommandState::MainGame, ClientAction::Spawn { class, row }),
                    None => (state, ClientAction::Nothing),
                },
                Key::Esc => (CommandState::MainGame, ClientAction::Nothing),
                Key::Other => (state, ClientAction::Nothing),
            },
        },
        CommandState::Chat => (CommandState::Chat, ClientAction::Nothing),
    }
}

/// After the player was asked for an address: with an address the client
/// plays red and enters the game; without one it stays in the menu.
pub fn address_entered(given: bool) -> (next: (CommandState, Option<Faction>))
    ensures
        given ==> next == (CommandState::MainGame, Some(Faction::Red)),
        !given ==> next == (CommandState::Menu, None::<Faction>),
{
    if given {
        (CommandState::MainGame, Some(Faction::Red))
    } else {
        (CommandState::Menu, None)
    }
}

/// The three bytes that ask for a new unit.
pub open spec fn spawn_text(color: Faction, class: UnitClass, row: u8) -> Seq<u8> {
    seq![
        match color {
            Faction::Green => LETTER_G,
            Faction::Red => LETTER_R,
        },
        match class {
            UnitClass::Barbarian => LETTER_B,
            UnitClass::Archer => LETTER_A,
            UnitClass::Giant => LETTER_G,
        },
        (DIGIT_ZERO + row) as u8,
    ]
}

/// Writes the request that asks for a unit of `class` for `color` on the
/// row of digit `row`. The server reads it as exactly that spawn, on row
/// `2 * row`.
pub fn spawn_request(color: Faction, class: UnitClass, row: u8) -> (request: Vec<u8>)
    requires
        1 <= row <= 9,
    ensures
        request@ == spawn_text(color, class, row),
        parse(request@) == (Command::Spawn { color, class, row: (2 * row) as i16 }),
{
    let mut request: Vec<u8> = Vec::new();
    request.push(
        match color {
            Faction::Green => LETTER_G,
            Faction::Red => LETTER_R,
        },
    );
    request.push(
        match class {
            UnitClass::Barbarian => LETTER_B,
            UnitClass::Archer => LETTER_A,
            UnitClass::Giant => LETTER_G,
        },
    );
    request.push(DIGIT_ZERO + row);
    proof {
        assert(request@ =~= spawn_text(color, class, row));
        assert(class_of(request@[1]) == Some(class));
    }
    request
}

/// Whether the client asks the server for a snapshot on a poll tick: only
/// outside the menu, and only once it knows a server.
pub fn should_poll(state: CommandState, connected: bool) -> (poll: bool)
    ensures
        poll == (state != CommandState::Menu && connected),
{
    match state {
        CommandState::Menu => false,
        _ => connected,
    }
}

/// Takes a polled reply: a valid snapshot replaces the local copy as a
/// whole; anything else counts as no data and leaves the copy as it is.
pub fn apply_snapshot(pieces: &mut Vec<Character>, raw: &[u8]) -> (replaced: bool)
    ensures
        replaced == decode_snapshot(raw@) is Some,
        replaced ==> final(pieces)@ == decode_snapshot(raw@)->0,
        !replaced ==> final(pieces)@ == old(pieces)@,
{
    match decode(raw) {
        Some(units) => {
            *pieces = units;
            true
        },
        None => false,
    }
}

/// The living units of one faction.
pub open spec fn living_of(s: Seq<Character>, color: Faction) -> Seq<Character> {
    s.filter(|c: Character| c.alive() && c.color == color)
}

/// Counts the living units of one faction.
pub fn count_living(pieces: &Vec<Character>, color: Faction) -> (count: usize)
    ensures
        count == living_of(pieces@, color).len(),
{
    let mut count: usize = 0;
    let mut i: usize = 0;
    while i < pieces.len()
        invariant
            i <= pieces.len(),
            count <= i,
            count == living_of(pieces@.take(i as int), color).len(),
        decreases pieces.len() - i,
    {
        proof {
            reveal(Seq::filter);
            assert(pieces@.take(i + 1).drop_last() =~= pieces@.take(i as int));
        }
        if pieces[i].hp > 0 && pieces[i].color == color {
            count = count + 1;
        }
        i = i + 1;
    }
    assert(pieces@.take(i as int) =~= pieces@);
    count
}

/// Number of log lines shown at the side of the screen.
pub const LOG_TAIL: usize = 20;

/// The first log line to show, counting from zero, of `line_count` lines:
/// a log longer than `LOG_TAIL` lines shows its last `LOG_TAIL` lines, a
/// shorter one shows none.
pub fn log_tail_start(line_count: usize) -> (start: usize)
    ensures
        line_count > LOG_TAIL ==> start == line_count - LOG_TAIL,
        line_count <= LOG_TAIL ==> start == line_count,
{
    if line_count > LOG_TAIL {
        line_count - LOG_TAIL
    } else {
        line_count
    }
}

/// A key press while a line of text is being typed.
#[derive(Clone, Copy, Debug, PartialEq, Eq, Structural)]
pub enum LineKey {
    Enter,
    Char(char),
    Backspace,
    Other,
}

/// What the screen has to show after a key press in a line of text.
#[derive(Clone, Copy, Debug, PartialEq, Eq, Structural)]
pub enum LineEcho {
    /// The line is complete.
    Done,
    /// The character was added at the end of the line.
    Typed(char),
    /// The last character was removed.
    Erased,
    /// Nothing changed.
    Nothing,
}

/// The line and the echo after a key press.
pub open spec fn line_after(line: Seq<char>, key: LineKey) -> (Seq<char>, LineEcho) {
    match key {
        LineKey::Enter => (line, LineEcho::Done),
        LineKey::Char(c) => (line.push(c), LineEcho::Typed(c)),
        LineKey::Backspace => if line.len() > 0 {
            (line.drop_last(), LineEcho::Erased)
        } else {
            (line, LineEcho::Nothing)
        },
        LineKey::Other => (line, LineEcho::Nothing),
    }
}

/// Applies a key press to the line being typed.
pub fn edit_line(line: &mut Vec<char>, key: LineKey) -> (echo: LineEcho)
    ensures
        (final(line)@, echo) == line_after(old(line)@, key),
{
    match key {
        LineKey::Enter => LineEcho::Done,
        LineKey::Char(c) => {
            line.push(c);
            LineEcho::Typed(c)
        },
        LineKey::Backspace => {
            if line.len() > 0 {
                line.pop();
                assert(line@ =~= old(line)@.drop_last());
                LineEcho::Erased
            } else {
                LineEcho::Nothing
            }
        },
        LineKey::Other => LineEcho::Nothing,
    }
}

} // verus!
