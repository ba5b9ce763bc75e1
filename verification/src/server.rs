//! The authoritative side of a match: one collection of units, advanced
//! by ticks and changed or reported on request. Ticks and requests are
//! handled one at a time, each to its end.

use vstd::prelude::*;
use crate::entity::{all_wf, Character, ID_LIMIT};
use crate::turn_order::is_turn_order;
use crate::movement::{movement_defined, movement_pass, no_overlap, update_movement};
use crate::combat::{
    attack_cooldowns_nonnegative, attack_pass, fair_rolls, update_attacks, AttackRoll,
};
use crate::protocol::{handle_request, outcome, parse};

verus! {

/// What the server waits for.
#[derive(Debug)]
pub enum ServerEvent {
    /// The tick timer fired.
    Tick,
    /// A connection delivered its request.
    Request(Vec<u8>),
}

/// The collection `after` results from `before` by one movement pass
/// followed by one combat pass, each in an order of its own.
pub open spec fn is_tick_result(before: Seq<Character>, after: Seq<Character>) -> bool {
    exists|marching: Seq<usize>, fighting: Seq<usize>, rolls: Seq<AttackRoll>|
        {
            &&& is_turn_order(marching, before.len())
            &&& is_turn_order(fighting, before.len())
            &&& fair_rolls(movement_pass(before, marching), fighting, rolls)
            &&& after == #[trigger] attack_pass(movement_pass(before, marching), fighting, rolls)
        }
}

/// Advances the battle by one tick: movement, then combat. With fewer
/// than two units nothing happens. A tick never changes a dead unit and
/// never brings two living units onto one cell.
pub fn tick(pieces: &mut Vec<Character>)
    requires
        all_wf(old(pieces)@),
        movement_defined(old(pieces)@),
    ensures
        old(pieces).len() <= 1 ==> final(pieces)@ == old(pieces)@,
        old(pieces).len() > 1 ==> is_tick_result(old(pieces)@, final(pieces)@),
        final(pieces).len() == old(pieces).len(),
        all_wf(final(pieces)@),
        forall|k: int|
            0 <= k < old(pieces).len() && !old(pieces)[k].alive() ==> final(pieces)[k] == old(
                pieces,
            )[k],
        no_overlap(old(pieces)@) ==> no_overlap(final(pieces)@),
        attack_cooldowns_nonnegative(old(pieces)@) ==> attack_cooldowns_nonnegative(final(pieces)@),
{
    if pieces.len() > 1 {
        update_movement(pieces);
        let ghost marched = pieces@;
        update_attacks(pieces);
        proof {
            let marching = choose|order: Seq<usize>|
                is_turn_order(order, old(pieces).len() as nat) && marched == #[trigger] movement_pass(
                    old(pieces)@,
                    order,
                );
            let (fighting, rolls) = choose|order: Seq<usize>, rolls: Seq<AttackRoll>|
                {
                    &&& is_turn_order(order, marched.len())
                    &&& fair_rolls(marched, order, rolls)
                    &&& pieces@ == #[trigger] attack_pass(marched, order, rolls)
                };
            assert(pieces@ == attack_pass(movement_pass(old(pieces)@, marching), fighting, rolls));
        }
    }
}

/// Handles one event: a tick advances the battle, a request is carried
/// out. The reply is what goes back over the connection; an empty reply
/// means that nothing is sent.
pub fn server_step(pieces: &mut Vec<Character>, event: &ServerEvent) -> (reply: Vec<u8>)
    requires
        event is Tick ==> all_wf(old(pieces)@) && movement_defined(old(pieces)@),
    ensures
        match event {
            ServerEvent::Tick => {
                &&& reply@.len() == 0
                &&& old(pieces).len() <= 1 ==> final(pieces)@ == old(pieces)@
                &&& old(pieces).len() > 1 ==> is_tick_result(old(pieces)@, final(pieces)@)
            },
            ServerEvent::Request(request) => exists|unit_id: u16, match_id: u128|
                unit_id < ID_LIMIT && (final(pieces)@, reply@) == #[trigger] outcome(
                    old(pieces)@,
                    parse(request@),
                    unit_id,
                    match_id,
                ),
        },
        all_wf(old(pieces)@) ==> all_wf(final(pieces)@),
{
    match event {
        ServerEvent::Tick => {
            tick(pieces);
            Vec::new()
        },
        ServerEvent::Request(request) => handle_request(pieces, request.as_slice()),
    }
}

} // verus!
