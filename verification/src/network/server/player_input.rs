use vstd::prelude::*;
use crate::components::common::Id;
use crate::components::player::{axis, key_held};
use crate::network::net_message::BitMask;

verus! {

/// A direction in the horizontal plane; each axis is -1, 0 or 1.
#[derive(Clone, Copy, Debug, PartialEq, Eq, Structural)]
pub struct PlanarDirection {
    pub x: i8,
    pub z: i8,
}

/// The direction a key mask asks for in the scheme of [`handle_input`]:
/// bit 1 is -x, bit 2 is +x, bit 4 is -z, bit 8 is +z.
pub open spec fn input_direction_spec(keymask: BitMask) -> PlanarDirection {
    PlanarDirection {
        x: axis(key_held(keymask, 2), key_held(keymask, 1)),
        z: axis(key_held(keymask, 8), key_held(keymask, 4)),
    }
}

pub fn input_direction(keymask: BitMask) -> (r: PlanarDirection)
    ensures
        r == input_direction_spec(keymask),
{
    let mut x: i8 = 0;
    let mut z: i8 = 0;
    if keymask & 1 > 0 {
        x = x - 1;
    }
    if keymask & 2 > 0 {
        x = x + 1;
    }
    if keymask & 4 > 0 {
        z = z - 1;
    }
    if keymask & 8 > 0 {
        z = z + 1;
    }
    PlanarDirection { x, z }
}

/// The indices, in order, of the players with id `playerid`.
pub open spec fn players_with_id(players: Seq<Id>, playerid: Id) -> Seq<usize>
    decreases players.len(),
{
    if players.len() == 0 {
        Seq::empty()
    } else {
        let prev = players_with_id(players.drop_last(), playerid);
        if players.last() == playerid {
            prev.push((players.len() - 1) as usize)
        } else {
            prev
        }
    }
}

/// The players whose velocity a key mask from player `playerid` sets: those
/// with that id, none when no key is held. Each is to move in the direction of
/// [`input_direction`], normalised.
pub fn handle_input(keymask: BitMask, playerid: Id, players: &Vec<Id>) -> (targets: Vec<usize>)
    ensures
        keymask == 0 ==> targets@.len() == 0,
        keymask != 0 ==> targets@ == players_with_id(players@, playerid),
{
    let mut targets: Vec<usize> = Vec::new();
    if keymask == 0 {
        return targets;
    }
    let n = players.len();
    for j in 0..n
        invariant
            n == players@.len(),
            targets@ == players_with_id(players@.take(j as int), playerid),
    {
        assert(players@.take(j + 1).drop_last() =~= players@.take(j as int));
        if players[j] == playerid {
            targets.push(j);
        }
    }
    assert(players@.take(n as int) =~= players@);
    targets
}

/// The keys of [`handle_input`] act independently: x comes from bits 2 (+x)
/// and 1 (-x) alone, z from bits 8 (+z) and 4 (-z) alone; a pair held together
/// cancels.
pub proof fn lemma_input_direction_keys(keymask: BitMask)
    ensures
        input_direction_spec(keymask).x == 1 <==> (keymask & 2 != 0 && keymask & 1 == 0),
        input_direction_spec(keymask).x == -1 <==> (keymask & 1 != 0 && keymask & 2 == 0),
        input_direction_spec(keymask).x == 0 <==> ((keymask & 1 != 0) == (keymask & 2 != 0)),
        input_direction_spec(keymask).z == 1 <==> (keymask & 8 != 0 && keymask & 4 == 0),
        input_direction_spec(keymask).z == -1 <==> (keymask & 4 != 0 && keymask & 8 == 0),
        input_direction_spec(keymask).z == 0 <==> ((keymask & 4 != 0) == (keymask & 8 != 0)),
{
}

/// Every player [`handle_input`] moves has the id of the input, and every
/// player with that id is moved when a key is held.
pub proof fn lemma_players_with_id(players: Seq<Id>, playerid: Id)
    requires
        players.len() <= usize::MAX,
    ensures
        forall|k: int|
            0 <= k < players_with_id(players, playerid).len() ==> (#[trigger] players_with_id(
                players,
                playerid,
            )[k]) < players.len() && players[players_with_id(players, playerid)[k] as int]
                == playerid,
        forall|j: int|
            0 <= j < players.len() && players[j] == playerid ==> players_with_id(
                players,
                playerid,
            ).contains(j as usize),
    decreases players.len(),
{
    if players.len() > 0 {
        let dl = players.drop_last();
        lemma_players_with_id(dl, playerid);
        let prev = players_with_id(dl, playerid);
        let all = players_with_id(players, playerid);
        assert forall|k: int| 0 <= k < all.len() implies (#[trigger] all[k]) < players.len()
            && players[all[k] as int] == playerid by {
            if k < prev.len() {
                assert(all[k] == prev[k]);
                assert(players[prev[k] as int] == dl[prev[k] as int]);
            }
        }
        assert forall|j: int| 0 <= j < players.len() && players[j] == playerid implies all.contains(
            j as usize,
        ) by {
            if j < dl.len() {
                assert(dl[j] == players[j]);
                let k = choose|k: int| 0 <= k < prev.len() && prev[k] == j as usize;
                assert(all[k] == prev[k]);
            } else {
                assert(all[all.len() - 1] == j as usize);
            }
        }
    }
}

} // verus!
