//! The request protocol. A request is the whole payload of one
//! connection, of which at most the first `READ_LIMIT` bytes are looked
//! at. Three shapes of request mean something; anything else is ignored
//! without an error and without a reply.

use vstd::prelude::*;
use vstd::arithmetic::div_mod::lemma_div_denominator;
use crate::entity::{all_wf, Character, Faction, UnitClass, ID_LIMIT};
use crate::codec::{decode_snapshot, encode, encode_snapshot, lemma_snapshot_round_trip};
use crate::random::{random_u128, random_u16};

verus! {

/// The longest prefix of a request that is interpreted.
pub const READ_LIMIT: usize = 1024;

/// The space character.
pub const SPACE: u8 = 32;

/// The character `0`.
pub const DIGIT_ZERO: u8 = 48;

/// The character `a`.
pub const LETTER_A: u8 = 97;

/// The character `b`.
pub const LETTER_B: u8 = 98;

/// The character `d`.
pub const LETTER_D: u8 = 100;

/// The character `e`.
pub const LETTER_E: u8 = 101;

/// The character `g`.
pub const LETTER_G: u8 = 103;

/// The character `m`.
pub const LETTER_M: u8 = 109;

/// The character `n`.
pub const LETTER_N: u8 = 110;

/// The character `p`.
pub const LETTER_P: u8 = 112;

/// The character `r`.
pub const LETTER_R: u8 = 114;

/// The character `t`.
pub const LETTER_T: u8 = 116;

/// The character `u`.
pub const LETTER_U: u8 = 117;

/// The character `w`.
pub const LETTER_W: u8 = 119;

/// What a request asks for.
#[derive(Clone, Copy, Debug, PartialEq, Eq, Structural)]
pub enum Command {
    /// Open a match: answered with a fresh match identifier.
    NewGame,
    /// Report the state: answered with a snapshot of every unit.
    Update,
    /// Put a new unit of `class` on `row` for `color`: not answered.
    Spawn { color: Faction, class: UnitClass, row: i16 },
    /// Nothing: not answered.
    Ignored,
}

/// The bytes of the text `new game`.
pub open spec fn new_game_text() -> Seq<u8> {
    seq![LETTER_N, LETTER_E, LETTER_W, SPACE, LETTER_G, LETTER_A, LETTER_M, LETTER_E]
}

/// The bytes of the text `update`.
pub open spec fn update_text() -> Seq<u8> {
    seq![LETTER_U, LETTER_P, LETTER_D, LETTER_A, LETTER_T, LETTER_E]
}

/// The faction that a request's first byte names: `r` is red, any other
/// byte is green.
pub open spec fn faction_of(byte: u8) -> Faction {
    if byte == LETTER_R {
        Faction::Red
    } else {
        Faction::Green
    }
}

/// The unit class that a request's second byte names, if any.
pub open spec fn class_of(byte: u8) -> Option<UnitClass> {
    if byte == LETTER_B {
        Some(UnitClass::Barbarian)
    } else if byte == LETTER_A {
        Some(UnitClass::Archer)
    } else if byte == LETTER_G {
        Some(UnitClass::Giant)
    } else {
        None
    }
}

/// The row that a request's third byte names: twice the byte's distance
/// from the digit `0`, so the digits `1` to `9` name the rows 2 to 18.
pub open spec fn row_of(byte: u8) -> i16 {
    ((byte - DIGIT_ZERO) * 2) as i16
}

/// The part of a request that is interpreted.
pub open spec fn interpreted(request: Seq<u8>) -> Seq<u8> {
    if request.len() > READ_LIMIT {
        request.take(READ_LIMIT as int)
    } else {
        request
    }
}

/// What a request asks for. The texts `new game` and `update` must match
/// in full. A spawn request is exactly three one-byte characters: a
/// faction, one of the classes `b`, `a` and `g`, and a row.
pub open spec fn parse(request: Seq<u8>) -> Command {
    let text = interpreted(request);
    if text == new_game_text() {
        Command::NewGame
    } else if text == update_text() {
        Command::Update
    } else if text.len() == 3 && text[0] < 128 && text[2] < 128 && class_of(text[1]) is Some {
        Command::Spawn {
            color: faction_of(text[0]),
            class: class_of(text[1])->0,
            row: row_of(text[2]),
        }
    } else {
        Command::Ignored
    }
}

/// Classifies a request.
pub fn parse_command(request: &[u8]) -> (command: Command)
    ensures
        command == parse(request@),
{
    let len: usize = if request.len() > READ_LIMIT {
        READ_LIMIT
    } else {
        request.len()
    };
    let ghost text = interpreted(request@);
    assert(text.len() == len);
    assert(forall|i: int| 0 <= i < len ==> text[i] == request[i]);
    if len == 8 && request[0] == LETTER_N && request[1] == LETTER_E && request[2] == LETTER_W && request[3]
        == SPACE && request[4] == LETTER_G && request[5] == LETTER_A && request[6] == LETTER_M && request[7]
        == LETTER_E {
        assert(text =~= new_game_text());
        return Command::NewGame;
    }
    assert(text != new_game_text()) by {
        if text == new_game_text() {
            assert(text[0] == LETTER_N && text[1] == LETTER_E && text[2] == LETTER_W && text[3] == SPACE
                && text[4] == LETTER_G && text[5] == LETTER_A && text[6] == LETTER_M && text[7] == LETTER_E);
        }
    }
    if len == 6 && request[0] == LETTER_U && request[1] == LETTER_P && request[2] == LETTER_D && request[3]
        == LETTER_A && request[4] == LETTER_T && request[5] == LETTER_E {
        assert(text =~= update_text());
        return Command::Update;
    }
    assert(text != update_text()) by {
        if text == update_text() {
            assert(text[0] == LETTER_U && text[1] == LETTER_P && text[2] == LETTER_D && text[3] == LETTER_A
                && text[4] == LETTER_T && text[5] == LETTER_E);
        }
    }
    if len != 3 || request[0] >= 128 || request[2] >= 128 {
        return Command::Ignored;
    }
    let color: Faction = if request[0] == LETTER_R {
        Faction::Red
    } else {
        Faction::Green
    };
    let row: i16 = (request[2] as i16 - DIGIT_ZERO as i16) * 2;
    if request[1] == LETTER_B {
        Command::Spawn { color, class: UnitClass::Barbarian, row }
    } else if request[1] == LETTER_A {
        Command::Spawn { color, class: UnitClass::Archer, row }
    } else if request[1] == LETTER_G {
        Command::Spawn { color, class: UnitClass::Giant, row }
    } else {
        Command::Ignored
    }
}

/// Number of characters in a match identifier.
pub const MATCH_ID_LEN: usize = 32;

/// Sixteen to the power `k`.
pub open spec fn pow16(k: nat) -> nat
    decreases k,
{
    if k == 0 {
        1
    } else {
        16 * pow16((k - 1) as nat)
    }
}

/// The lower-case hexadecimal character for a digit below sixteen.
pub open spec fn hex_digit(d: nat) -> u8 {
    if d < 10 {
        (DIGIT_ZERO + d) as u8
    } else {
        (LETTER_A + d - 10) as u8
    }
}

/// A match identifier as text: all 32 hexadecimal digits of the number,
/// highest first, with leading zeros kept.
pub open spec fn hex_id(value: u128) -> Seq<u8> {
    Seq::new(MATCH_ID_LEN as nat, |i: int| hex_digit((value as nat / pow16((31 - i) as nat)) % 16))
}

/// Writes a match identifier as 32 hexadecimal characters.
pub fn format_match_id(value: u128) -> (text: Vec<u8>)
    ensures
        text@ == hex_id(value),
{
    let mut text: Vec<u8> = Vec::new();
    while text.len() < MATCH_ID_LEN
        invariant
            text.len() <= MATCH_ID_LEN,
        decreases MATCH_ID_LEN - text.len(),
    {
        text.push(DIGIT_ZERO);
    }
    let mut rest: u128 = value;
    let mut done: usize = 0;
    assert(pow16(0) == 1);
    while done < MATCH_ID_LEN
        invariant
            done <= MATCH_ID_LEN,
            text.len() == MATCH_ID_LEN,
            rest == value as nat / pow16(done as nat),
            forall|i: int| MATCH_ID_LEN - done <= i < MATCH_ID_LEN ==> text[i] == hex_id(value)[i],
        decreases MATCH_ID_LEN - done,
    {
        let digit: u8 = (rest % 16) as u8;
        let glyph: u8 = if digit < 10 {
            DIGIT_ZERO + digit
        } else {
            LETTER_A + (digit - 10)
        };
        let at: usize = MATCH_ID_LEN - 1 - done;
        text[at] = glyph;
        proof {
            lemma_pow16_positive(done as nat);
            lemma_div_denominator(value as int, pow16(done as nat) as int, 16);
            assert(pow16((done + 1) as nat) == pow16(done as nat) * 16);
        }
        rest = rest / 16;
        done = done + 1;
    }
    assert(text@ =~= hex_id(value));
    text
}

/// Powers of sixteen are positive.
proof fn lemma_pow16_positive(k: nat)
    ensures
        pow16(k) > 0,
    decreases k,
{
    if k > 0 {
        lemma_pow16_positive((k - 1) as nat);
    }
}

/// The collection and the reply after a command has been carried out,
/// given the identifier drawn for a new unit and the one drawn for a new
/// match. Only a spawn changes the collection, by one unit at its end;
/// only `new game` and `update` are answered.
pub open spec fn outcome(s: Seq<Character>, command: Command, unit_id: u16, match_id: u128) -> (
    Seq<Character>,
    Seq<u8>,
) {
    match command {
        Command::NewGame => (s, hex_id(match_id)),
        Command::Update => (s, encode_snapshot(s)),
        Command::Spawn { color, class, row } => (
            s.push(Character::fresh(class, row, color, unit_id)),
            Seq::empty(),
        ),
        Command::Ignored => (s, Seq::empty()),
    }
}

/// Whether a byte is a lower-case hexadecimal character.
pub open spec fn is_hex_char(byte: u8) -> bool {
    DIGIT_ZERO <= byte <= DIGIT_ZERO + 9 || LETTER_A <= byte <= LETTER_A + 5
}

/// A match identifier is always 32 lower-case hexadecimal characters.
pub proof fn lemma_match_id_shape(value: u128)
    ensures
        hex_id(value).len() == MATCH_ID_LEN,
        forall|i: int| 0 <= i < MATCH_ID_LEN ==> is_hex_char(#[trigger] hex_id(value)[i]),
{
}

/// The reply to `update` decodes to the collection as it stands, and the
/// request leaves the collection as it is.
pub proof fn lemma_update_reports_the_collection(s: Seq<Character>, unit_id: u16, match_id: u128)
    requires
        s.len() <= u64::MAX,
    ensures
        outcome(s, Command::Update, unit_id, match_id).0 == s,
        decode_snapshot(outcome(s, Command::Update, unit_id, match_id).1) == Some(s),
{
    lemma_snapshot_round_trip(s);
}

/// Carrying out a command keeps a well-formed collection well formed:
/// the only unit it can add comes fresh from a class template.
pub proof fn lemma_outcome_keeps_wf(s: Seq<Character>, command: Command, unit_id: u16, match_id: u128)
    requires
        all_wf(s),
    ensures
        all_wf(outcome(s, command, unit_id, match_id).0),
{
    let after = outcome(s, command, unit_id, match_id).0;
    assert forall|i: int| 0 <= i < after.len() implies (#[trigger] after[i]).wf() by {
        if i < s.len() {
            assert(s[i].wf());
        }
    }
}

/// Carries out a command, with `unit_id` for a unit that is spawned and
/// `match_id` for a match that is opened. An empty reply means that
/// nothing is sent back.
pub fn respond(pieces: &mut Vec<Character>, command: Command, unit_id: u16, match_id: u128) -> (reply:
    Vec<u8>)
    ensures
        (final(pieces)@, reply@) == outcome(old(pieces)@, command, unit_id, match_id),
{
    match command {
        Command::NewGame => format_match_id(match_id),
        Command::Update => encode(pieces),
        Command::Spawn { color, class, row } => {
            pieces.push(Character::from_template(class, row, color, unit_id));
            Vec::new()
        },
        Command::Ignored => Vec::new(),
    }
}

/// Handles one request: classifies it, draws the identifier it needs, and
/// carries it out.
pub fn handle_request(pieces: &mut Vec<Character>, request: &[u8]) -> (reply: Vec<u8>)
    ensures
        exists|unit_id: u16, match_id: u128|
            unit_id < ID_LIMIT && (final(pieces)@, reply@) == #[trigger] outcome(
                old(pieces)@,
                parse(request@),
                unit_id,
                match_id,
            ),
        all_wf(old(pieces)@) ==> all_wf(final(pieces)@),
{
    let command: Command = parse_command(request);
    match command {
        Command::NewGame => {
            let match_id: u128 = random_u128();
            let reply = respond(pieces, command, 0, match_id);
            assert((pieces@, reply@) == outcome(old(pieces)@, parse(request@), 0, match_id));
            proof {
                if all_wf(old(pieces)@) {
                    lemma_outcome_keeps_wf(old(pieces)@, command, 0, match_id);
                }
            }
            reply
        },
        Command::Spawn { .. } => {
            let unit_id: u16 = random_u16(0, ID_LIMIT);
            let reply = respond(pieces, command, unit_id, 0);
            assert((pieces@, reply@) == outcome(old(pieces)@, parse(request@), unit_id, 0));
            proof {
                if all_wf(old(pieces)@) {
                    lemma_outcome_keeps_wf(old(pieces)@, command, unit_id, 0);
                }
            }
            reply
        },
        _ => {
            let reply = respond(pieces, command, 0, 0);
            assert((pieces@, reply@) == outcome(old(pieces)@, parse(request@), 0, 0));
            proof {
                if all_wf(old(pieces)@) {
                    lemma_outcome_keeps_wf(old(pieces)@, command, 0, 0);
                }
            }
            reply
        },
    }
}

} // verus!
