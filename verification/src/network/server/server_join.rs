use vstd::prelude::*;
use crate::components::common::Id;
use crate::network::net_manage::TcpConnection;
use crate::network::net_message::{NetworkMessage, STcpType};
use crate::util::generate_random_u32;

verus! {

/// The message that tells a client the id of its player.
pub open spec fn player_id_message(id: Id) -> NetworkMessage<STcpType> {
    NetworkMessage(STcpType::PlayerId { player_uid: id })
}

/// Whether `id` is a value that a draw of [`generate_random_u32`] returned:
/// a player's id is drawn at random, whatever the lobby it joins.
pub open spec fn is_drawn_player_id(id: Id) -> bool {
    call_ensures(generate_random_u32, (), id.0)
}

/// Admits a player with the given id on a stream connection: the client is
/// told the id, which is returned for the caller to spawn the player with.
pub fn welcome_player(connection: &mut TcpConnection, player_id: u32) -> (player: Id)
    ensures
        player == Id(player_id),
        final(connection)@.stream == old(connection)@.stream,
        final(connection)@.input == old(connection)@.input,
        final(connection)@.lobby_id == old(connection)@.lobby_id,
        final(connection)@.output == old(connection)@.output.push(player_id_message(player)),
{
    let player = Id(player_id);
    connection.add_message(NetworkMessage(STcpType::PlayerId { player_uid: player }));
    player
}

/// Handles a client's request to join the lobby `lobby_id`: a fresh random id
/// is drawn for its player and sent to the client. The id is returned so that
/// the caller spawns the player's body with it. The id is the value the draw
/// returned, not one computed from `lobby_id` or the connection.
pub fn handle_join(lobby_id: Id, connection: &mut TcpConnection) -> (player: Id)
    ensures
        is_drawn_player_id(player),
        final(connection)@.stream == old(connection)@.stream,
        final(connection)@.input == old(connection)@.input,
        final(connection)@.lobby_id == old(connection)@.lobby_id,
        final(connection)@.output == old(connection)@.output.push(player_id_message(player)),
{
    let player_id = generate_random_u32();
    welcome_player(connection, player_id)
}

} // verus!
