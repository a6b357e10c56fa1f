use vstd::prelude::*;
use crate::components::chat::{
    add_chat_message, copy_chat_message, history_after, Chat, ChatMessage,
};
use crate::components::common::Id;
use crate::components::player::Player;
use crate::network::net_message::same_udp_kind;
use crate::network::net_manage::{has_udp_kind, packet_bytes, Connection, TcpConnection};
use crate::network::net_message::{
    BitMask, CTcpType, CUdpType, MouseDelta, NetworkMessage, STcpType, SUdpType, SequenceNumber,
};
use crate::network::server::server_join::{handle_join, is_drawn_player_id, player_id_message};

verus! {

/// How many queued packets of one connection are handled per tick.
pub const MESSAGE_PER_TICK_MAX: usize = 20;

/// How many of `queued` packets are handled in one tick.
pub open spec fn batch_len(queued: nat) -> nat {
    if queued < MESSAGE_PER_TICK_MAX {
        queued
    } else {
        MESSAGE_PER_TICK_MAX as nat
    }
}

/// How many queued packets of a datagram connection this tick handles.
pub fn udp_batch_len(connection: &Connection) -> (r: usize)
    ensures
        r == batch_len(connection@.input.len()),
{
    let n = connection.input_packet_buffer.len();
    if n < MESSAGE_PER_TICK_MAX {
        n
    } else {
        MESSAGE_PER_TICK_MAX
    }
}

/// How many queued packets of a stream connection this tick handles.
pub fn tcp_batch_len(connection: &TcpConnection) -> (r: usize)
    ensures
        r == batch_len(connection@.input.len()),
{
    let n = connection.input_packet_buffer.len();
    if n < MESSAGE_PER_TICK_MAX {
        n
    } else {
        MESSAGE_PER_TICK_MAX
    }
}

/// The messages of the packets that decoded (`None` marks a packet that did
/// not), in order.
pub open spec fn decoded_messages<T>(decoded: Seq<Option<Vec<T>>>) -> Seq<T>
    decreases decoded.len(),
{
    if decoded.len() == 0 {
        Seq::empty()
    } else {
        let prev = decoded_messages(decoded.drop_last());
        match decoded.last() {
            Some(v) => prev + v@,
            None => prev,
        }
    }
}

// ----- Datagrams -----

/// What one input of a client does to one player's body: the movement keys,
/// when any is held, and the mouse movement that turns the camera.
#[derive(Clone, Copy, Debug)]
pub struct PlayerInput {
    /// The index of the player among those the server simulates.
    pub player: usize,
    pub movement: Option<BitMask>,
    pub mouse_delta: MouseDelta,
}

/// The input of one `Input` message, for each player with its id, in order.
pub open spec fn inputs_for(
    players: Seq<Id>,
    keymask: BitMask,
    mouse_delta: MouseDelta,
    player_id: Id,
) -> Seq<PlayerInput>
    decreases players.len(),
{
    if players.len() == 0 {
        Seq::empty()
    } else {
        let prev = inputs_for(players.drop_last(), keymask, mouse_delta, player_id);
        if players.last() == player_id {
            prev.push(
                PlayerInput {
                    player: (players.len() - 1) as usize,
                    movement: if keymask != 0 {
                        Some(keymask)
                    } else {
                        None
                    },
                    mouse_delta,
                },
            )
        } else {
            prev
        }
    }
}

/// The inputs of all `Input` messages, in order.
pub open spec fn player_inputs(messages: Seq<CUdpType>, players: Seq<Id>) -> Seq<PlayerInput>
    decreases messages.len(),
{
    if messages.len() == 0 {
        Seq::empty()
    } else {
        let prev = player_inputs(messages.drop_last(), players);
        match messages.last() {
            CUdpType::Input { keymask, mouse_delta, player_id } => prev + inputs_for(
                players,
                keymask,
                mouse_delta,
                player_id,
            ),
            _ => prev,
        }
    }
}

/// Whether a sequence number can be acknowledged: read as an `i32`, it is not negative.
pub open spec fn ackable(sequence_number: SequenceNumber) -> bool {
    sequence_number < 0x8000_0000
}

/// The highest acknowledgeable sequence number among the `Sequence` messages, if any.
pub open spec fn highest_ack(messages: Seq<CUdpType>) -> Option<SequenceNumber>
    decreases messages.len(),
{
    if messages.len() == 0 {
        None
    } else {
        let prev = highest_ack(messages.drop_last());
        match messages.last() {
            CUdpType::Sequence { sequence_number } => if ackable(sequence_number) {
                match prev {
                    Some(p) => Some(
                        if sequence_number > p {
                            sequence_number
                        } else {
                            p
                        },
                    ),
                    None => Some(sequence_number),
                }
            } else {
                prev
            },
            _ => prev,
        }
    }
}

/// The acknowledgement queued for `ack`, if there is one.
pub open spec fn ack_messages(ack: Option<SequenceNumber>) -> Seq<NetworkMessage<SUdpType>> {
    match ack {
        Some(s) => seq![NetworkMessage(SUdpType::Sequence { sequence_number: s })],
        None => Seq::empty(),
    }
}

/// Appends the input of one `Input` message for each player with its id.
fn collect_inputs_for(
    players: &Vec<Id>,
    keymask: BitMask,
    mouse_delta: MouseDelta,
    player_id: Id,
    inputs: &mut Vec<PlayerInput>,
)
    ensures
        final(inputs)@ == old(inputs)@ + inputs_for(players@, keymask, mouse_delta, player_id),
{
    let n = players.len();
    for p in 0..n
        invariant
            n == players@.len(),
            inputs@ == old(inputs)@ + inputs_for(players@.take(p as int), keymask, mouse_delta, player_id),
    {
        assert(players@.take(p + 1).drop_last() =~= players@.take(p as int));
        if players[p] == player_id {
            let movement = if keymask != 0 {
                Some(keymask)
            } else {
                None
            };
            inputs.push(PlayerInput { player: p, movement, mouse_delta });
        }
        assert(inputs@ =~= old(inputs)@ + inputs_for(players@.take(p + 1), keymask, mouse_delta, player_id));
    }
    assert(players@.take(n as int) =~= players@);
}

/// Handles one tick's worth of datagrams of a client.
///
/// `decoded` holds, for each of the first `udp_batch_len(connection)` queued
/// packets in order, its messages, or `None` when it did not decode. The
/// connection gets an acknowledgement of the highest acknowledgeable sequence
/// number among them; its input buffer is emptied (packets beyond the batch are
/// dropped). The inputs the messages carry for the players in `players` (their
/// ids, in the order the server keeps them) are returned, in order, for the
/// caller to apply to the bodies.
pub fn handle_udp_message(
    connection: &mut Connection,
    decoded: Vec<Option<Vec<CUdpType>>>,
    players: &Vec<Id>,
) -> (inputs: Vec<PlayerInput>)
    requires
        decoded@.len() == batch_len(old(connection)@.input.len()),
    ensures
        final(connection)@.ip_addrs == old(connection)@.ip_addrs,
        final(connection)@.input.len() == 0,
        final(connection)@.output == old(connection)@.output + ack_messages(
            highest_ack(decoded_messages(decoded@)),
        ),
        inputs@ == player_inputs(decoded_messages(decoded@), players@),
{
    let mut inputs: Vec<PlayerInput> = Vec::new();
    let mut ack: Option<SequenceNumber> = None;
    let n = decoded.len();
    for i in 0..n
        invariant
            n == decoded@.len(),
            ack == highest_ack(decoded_messages(decoded@.take(i as int))),
            inputs@ == player_inputs(decoded_messages(decoded@.take(i as int)), players@),
    {
        let ghost done = decoded_messages(decoded@.take(i as int));
        assert(decoded@.take(i + 1).drop_last() =~= decoded@.take(i as int));
        match &decoded[i] {
            Some(messages) => {
                let m = messages.len();
                assert(done + messages@.take(0) =~= done);
                for k in 0..m
                    invariant
                        m == messages@.len(),
                        ack == highest_ack(done + messages@.take(k as int)),
                        inputs@ == player_inputs(done + messages@.take(k as int), players@),
                {
                    let ghost seen = done + messages@.take(k as int);
                    assert((done + messages@.take(k + 1)).drop_last() =~= seen);
                    assert((done + messages@.take(k + 1)).last() == messages@[k as int]);
                    match messages[k] {
                        CUdpType::Sequence { sequence_number } => {
                            if sequence_number < 0x8000_0000 {
                                match ack {
                                    Some(p) => {
                                        if sequence_number > p {
                                            ack = Some(sequence_number);
                                        }
                                    },
                                    None => {
                                        ack = Some(sequence_number);
                                    },
                                }
                            }
                        },
                        CUdpType::Input { keymask, mouse_delta, player_id } => {
                            collect_inputs_for(players, keymask, mouse_delta, player_id, &mut inputs);
                        },
                        CUdpType::Ping { .. } => {},
                    }
                }
                assert(done + messages@.take(m as int) =~= decoded_messages(decoded@.take(i + 1)));
            },
            None => {},
        }
    }
    assert(decoded@.take(n as int) =~= decoded@);
    match ack {
        Some(s) => {
            connection.add_message(NetworkMessage(SUdpType::Sequence { sequence_number: s }));
        },
        None => {},
    }
    connection.input_packet_buffer.clear();
    proof {
        assert(connection@.output =~= old(connection)@.output + ack_messages(
            highest_ack(decoded_messages(decoded@)),
        ));
    }
    inputs
}

// ----- Streams -----

/// The chat lines among stream messages, with who wrote them, in order.
pub open spec fn chat_lines(messages: Seq<CTcpType>) -> Seq<(Id, ChatMessage)>
    decreases messages.len(),
{
    if messages.len() == 0 {
        Seq::empty()
    } else {
        let prev = chat_lines(messages.drop_last());
        match messages.last() {
            CTcpType::ChatMessage { player_id, message } => prev.push((player_id, message)),
            _ => prev,
        }
    }
}

/// How many of the stream messages ask to join a lobby.
pub open spec fn join_count(messages: Seq<CTcpType>) -> nat
    decreases messages.len(),
{
    if messages.len() == 0 {
        0
    } else {
        let prev = join_count(messages.drop_last());
        match messages.last() {
            CTcpType::Join { .. } => prev + 1,
            _ => prev,
        }
    }
}

/// A chat history after each of `lines` was offered to it, in order.
pub open spec fn history_after_lines(
    history: Seq<(Id, ChatMessage)>,
    lines: Seq<(Id, ChatMessage)>,
) -> Seq<(Id, ChatMessage)>
    decreases lines.len(),
{
    if lines.len() == 0 {
        history
    } else {
        history_after(history_after_lines(history, lines.drop_last()), lines.last())
    }
}

/// The messages that tell clients the ids of their new players, in order.
pub open spec fn player_id_messages(ids: Seq<Id>) -> Seq<NetworkMessage<STcpType>> {
    ids.map_values(|id: Id| player_id_message(id))
}

/// Handles one tick's worth of stream data of a client.
///
/// `decoded` holds, for each of the first `tcp_batch_len(connection)` queued
/// packets in order, its messages, or `None` when it did not decode. Those
/// packets leave the input buffer (later ones stay for the next tick). Chat
/// lines go to the lobby chat, as [`add_chat_message`] does with `chat`; each
/// request to join gets a new player through [`handle_join`]. The ids of the
/// new players are returned, in order, for the caller to spawn their bodies.
pub fn handle_tcp_message(
    chat: &mut Vec<Chat>,
    connection: &mut TcpConnection,
    decoded: Vec<Option<Vec<CTcpType>>>,
) -> (joined: Vec<Id>)
    requires
        decoded@.len() == batch_len(old(connection)@.input.len()),
    ensures
        final(connection)@.stream == old(connection)@.stream,
        final(connection)@.lobby_id == old(connection)@.lobby_id,
        final(connection)@.input == old(connection)@.input.skip(decoded@.len() as int),
        final(connection)@.output == old(connection)@.output + player_id_messages(joined@),
        joined@.len() == join_count(decoded_messages(decoded@)),
        forall|k: int| 0 <= k < joined@.len() ==> is_drawn_player_id(#[trigger] joined@[k]),
        old(chat)@.len() == 1 ==> final(chat)@.len() == 1 && final(chat)@[0].chat_history@
            == history_after_lines(
            old(chat)@[0].chat_history@,
            chat_lines(decoded_messages(decoded@)),
        ),
        old(chat)@.len() != 1 ==> final(chat)@ == old(chat)@,
{
    let mut joined: Vec<Id> = Vec::new();
    let n = decoded.len();
    assert(old(connection)@.input.skip(0) =~= old(connection)@.input);
    assert(old(connection)@.output + player_id_messages(joined@) =~= old(connection)@.output);
    for i in 0..n
        invariant
            n == decoded@.len(),
            n <= old(connection)@.input.len(),
            connection@.stream == old(connection)@.stream,
            connection@.lobby_id == old(connection)@.lobby_id,
            connection@.input == old(connection)@.input.skip(i as int),
            connection@.output == old(connection)@.output + player_id_messages(joined@),
            joined@.len() == join_count(decoded_messages(decoded@.take(i as int))),
            forall|k: int| 0 <= k < joined@.len() ==> is_drawn_player_id(#[trigger] joined@[k]),
            old(chat)@.len() == 1 ==> chat@.len() == 1 && chat@[0].chat_history@
                == history_after_lines(
                old(chat)@[0].chat_history@,
                chat_lines(decoded_messages(decoded@.take(i as int))),
            ),
            old(chat)@.len() != 1 ==> chat@ == old(chat)@,
    {
        let ghost done = decoded_messages(decoded@.take(i as int));
        assert(decoded@.take(i + 1).drop_last() =~= decoded@.take(i as int));
        let ghost q0 = connection.input_packet_buffer@;
        assert(packet_bytes(q0).len() == q0.len());
        connection.input_packet_buffer.pop_front();
        assert forall|x: int| 0 <= x < q0.len() - 1 implies #[trigger] packet_bytes(
            q0.subrange(1, q0.len() as int),
        )[x] == old(connection)@.input.skip(i + 1)[x] by {
            assert(packet_bytes(q0)[x + 1] == old(connection)@.input.skip(i as int)[x + 1]);
        }
        assert(packet_bytes(q0.subrange(1, q0.len() as int)) =~= old(connection)@.input.skip(i + 1));
        match &decoded[i] {
            Some(messages) => {
                let m = messages.len();
                assert(done + messages@.take(0) =~= done);
                for k in 0..m
                    invariant
                        m == messages@.len(),
                        connection@.stream == old(connection)@.stream,
                        connection@.lobby_id == old(connection)@.lobby_id,
                        connection@.input == old(connection)@.input.skip(i + 1),
                        connection@.output == old(connection)@.output + player_id_messages(joined@),
                        joined@.len() == join_count(done + messages@.take(k as int)),
                        forall|x: int| 0 <= x < joined@.len() ==> is_drawn_player_id(#[trigger] joined@[x]),
                        old(chat)@.len() == 1 ==> chat@.len() == 1 && chat@[0].chat_history@
                            == history_after_lines(
                            old(chat)@[0].chat_history@,
                            chat_lines(done + messages@.take(k as int)),
                        ),
                        old(chat)@.len() != 1 ==> chat@ == old(chat)@,
                {
                    let ghost seen = done + messages@.take(k as int);
                    assert((done + messages@.take(k + 1)).drop_last() =~= seen);
                    assert((done + messages@.take(k + 1)).last() == messages@[k as int]);
                    match &messages[k] {
                        CTcpType::ChatMessage { player_id, message } => {
                            let line = (*player_id, copy_chat_message(message));
                            let ghost lines = chat_lines(seen);
                            assert(chat_lines(done + messages@.take(k + 1)) == lines.push(line));
                            assert(lines.push(line).drop_last() =~= lines);
                            add_chat_message(line, chat);
                        },
                        CTcpType::Join { lobby_id } => {
                            let player = handle_join(*lobby_id, connection);
                            let ghost before = joined@;
                            joined.push(player);
                            assert(player_id_messages(joined@) =~= player_id_messages(before).push(
                                player_id_message(player),
                            ));
                            assert(connection@.output =~= old(connection)@.output + player_id_messages(joined@));
                        },
                    }
                }
                assert(done + messages@.take(m as int) =~= decoded_messages(decoded@.take(i + 1)));
            },
            None => {},
        }
    }
    assert(decoded@.take(n as int) =~= decoded@);
    joined
}

// ----- Player snapshots -----

/// `players` without the entries of id `id`, in order.
pub open spec fn without_id(players: Seq<(Id, Player)>, id: Id) -> Seq<(Id, Player)>
    decreases players.len(),
{
    if players.len() == 0 {
        Seq::empty()
    } else {
        let prev = without_id(players.drop_last(), id);
        if players.last().0 == id {
            prev
        } else {
            prev.push(players.last())
        }
    }
}

/// The entries of `players` that no later entry shares an id with, in order:
/// what collecting the list into a map by id keeps.
pub open spec fn latest_entries(players: Seq<(Id, Player)>) -> Seq<(Id, Player)>
    decreases players.len(),
{
    if players.len() == 0 {
        Seq::empty()
    } else {
        without_id(latest_entries(players.drop_last()), players.last().0).push(players.last())
    }
}

/// The map from id to state that inserting the entries in order builds.
pub open spec fn players_map(players: Seq<(Id, Player)>) -> Map<Id, Player>
    decreases players.len(),
{
    if players.len() == 0 {
        Map::empty()
    } else {
        players_map(players.drop_last()).insert(players.last().0, players.last().1)
    }
}

/// No two entries share an id.
pub open spec fn unique_ids(players: Seq<(Id, Player)>) -> bool {
    forall|i: int, j: int|
        0 <= i < players.len() && 0 <= j < players.len() && i != j ==> #[trigger] players[i].0
            != #[trigger] players[j].0
}

/// Whether `m` is the message that shares the players' states with a client.
pub open spec fn is_players_update(m: NetworkMessage<SUdpType>, players: Seq<(Id, Player)>) -> bool {
    match m.0 {
        SUdpType::Players { players: p } => p@ == players,
        _ => false,
    }
}

/// A copy of a list of player states.
fn copy_players(players: &Vec<(Id, Player)>) -> (r: Vec<(Id, Player)>)
    ensures
        r@ == players@,
{
    let mut r: Vec<(Id, Player)> = Vec::new();
    let n = players.len();
    for i in 0..n
        invariant
            n == players@.len(),
            r@ == players@.take(i as int),
    {
        r.push(players[i]);
        assert(r@ =~= players@.take(i + 1));
    }
    assert(players@.take(n as int) =~= players@);
    r
}

/// `players` without the entries of id `id`.
fn remove_id(players: &Vec<(Id, Player)>, id: Id) -> (r: Vec<(Id, Player)>)
    ensures
        r@ == without_id(players@, id),
{
    let mut r: Vec<(Id, Player)> = Vec::new();
    let n = players.len();
    for i in 0..n
        invariant
            n == players@.len(),
            r@ == without_id(players@.take(i as int), id),
    {
        assert(players@.take(i + 1).drop_last() =~= players@.take(i as int));
        let e = players[i];
        if !(e.0 == id) {
            r.push(e);
        }
    }
    assert(players@.take(n as int) =~= players@);
    r
}

/// The latest state of each player id of `players`, as collecting the list
/// into a map by id keeps them (see [`lemma_latest_entries`]).
pub fn latest_per_id(players: &Vec<(Id, Player)>) -> (r: Vec<(Id, Player)>)
    ensures
        r@ == latest_entries(players@),
{
    let mut r: Vec<(Id, Player)> = Vec::new();
    let n = players.len();
    for i in 0..n
        invariant
            n == players@.len(),
            r@ == latest_entries(players@.take(i as int)),
    {
        assert(players@.take(i + 1).drop_last() =~= players@.take(i as int));
        let e = players[i];
        let mut next = remove_id(&r, e.0);
        next.push(e);
        r = next;
    }
    assert(players@.take(n as int) =~= players@);
    r
}

/// Queues the players' states for every datagram client that has an
/// acknowledgement queued. `players` lists the state of each simulated player
/// with its id; what is sent is [`latest_per_id`] of it.
pub fn build_connection_messages(connections: &mut Vec<Connection>, players: Vec<(Id, Player)>)
    ensures
        final(connections)@.len() == old(connections)@.len(),
        forall|j: int|
            0 <= j < old(connections)@.len() ==> {
                let before = #[trigger] old(connections)@[j]@;
                let after = final(connections)@[j]@;
                &&& after.ip_addrs == before.ip_addrs
                &&& after.input == before.input
                &&& has_udp_kind(before.output, SUdpType::Sequence { sequence_number: 0 }) ==> {
                    &&& after.output.len() == before.output.len() + 1
                    &&& after.output.drop_last() == before.output
                    &&& is_players_update(after.output.last(), latest_entries(players@))
                }
                &&& !has_udp_kind(before.output, SUdpType::Sequence { sequence_number: 0 })
                    ==> after.output == before.output
            },
{
    let snapshot = latest_per_id(&players);
    let n = connections.len();
    let ack = SUdpType::Sequence { sequence_number: 0 };
    for j in 0..n
        invariant
            n == connections@.len(),
            old(connections)@.len() == n,
            snapshot@ == latest_entries(players@),
            ack == (SUdpType::Sequence { sequence_number: 0 }),
            forall|k: int| j <= k < n ==> connections@[k] == old(connections)@[k],
            forall|k: int|
                0 <= k < j ==> {
                    let before = #[trigger] old(connections)@[k]@;
                    let after = connections@[k]@;
                    &&& after.ip_addrs == before.ip_addrs
                    &&& after.input == before.input
                    &&& has_udp_kind(before.output, SUdpType::Sequence { sequence_number: 0 })
                        ==> {
                        &&& after.output.len() == before.output.len() + 1
                        &&& after.output.drop_last() == before.output
                        &&& is_players_update(after.output.last(), latest_entries(players@))
                    }
                    &&& !has_udp_kind(before.output, SUdpType::Sequence { sequence_number: 0 })
                        ==> after.output == before.output
                },
    {
        if connections[j].contains_message_type(&ack) {
            let copy = copy_players(&snapshot);
            connections[j].add_message(NetworkMessage(SUdpType::Players { players: copy }));
        }
    }
}

proof fn lemma_without_id_map(players: Seq<(Id, Player)>, id: Id)
    ensures
        players_map(without_id(players, id)) == players_map(players).remove(id),
    decreases players.len(),
{
    if players.len() > 0 {
        lemma_without_id_map(players.drop_last(), id);
        let last = players.last();
        if last.0 == id {
            assert(players_map(players).remove(id) =~= players_map(players.drop_last()).remove(id));
        } else {
            let w = without_id(players.drop_last(), id);
            assert(w.push(last).drop_last() =~= w);
            assert(players_map(w.push(last)) =~= players_map(players).remove(id));
        }
    } else {
        assert(players_map(players).remove(id) =~= Map::empty());
    }
}

proof fn lemma_without_id_entries(players: Seq<(Id, Player)>, id: Id)
    ensures
        forall|i: int|
            0 <= i < without_id(players, id).len() ==> (#[trigger] without_id(players, id)[i]).0
                != id && players.contains(without_id(players, id)[i]),
        unique_ids(players) ==> unique_ids(without_id(players, id)),
    decreases players.len(),
{
    if players.len() > 0 {
        let dl = players.drop_last();
        let last = players.last();
        lemma_without_id_entries(dl, id);
        let w = without_id(dl, id);
        assert forall|i: int| 0 <= i < w.len() implies players.contains(#[trigger] w[i]) by {
            let k = choose|k: int| 0 <= k < dl.len() && dl[k] == w[i];
            assert(players[k] == w[i]);
        }
        if last.0 != id {
            assert(players[players.len() - 1] == last);
            if unique_ids(players) {
                assert(unique_ids(dl)) by {
                    assert forall|a: int, b: int|
                        0 <= a < dl.len() && 0 <= b < dl.len() && a != b implies #[trigger] dl[a].0
                        != #[trigger] dl[b].0 by {
                        assert(players[a] == dl[a] && players[b] == dl[b]);
                    }
                }
                assert forall|a: int| 0 <= a < w.len() implies #[trigger] w[a].0 != last.0 by {
                    let k = choose|k: int| 0 <= k < dl.len() && dl[k] == w[a];
                    assert(players[k] == w[a]);
                    assert(players[players.len() - 1] == last);
                }
                let wp = w.push(last);
                assert forall|a: int, b: int|
                    0 <= a < wp.len() && 0 <= b < wp.len() && a != b implies #[trigger] wp[a].0
                    != #[trigger] wp[b].0 by {
                    if a < w.len() && b < w.len() {
                        assert(wp[a] == w[a] && wp[b] == w[b]);
                    } else if a < w.len() {
                        assert(wp[a] == w[a]);
                    } else {
                        assert(wp[b] == w[b]);
                    }
                }
            }
        } else {
            if unique_ids(players) {
                assert forall|a: int, b: int|
                    0 <= a < dl.len() && 0 <= b < dl.len() && a != b implies #[trigger] dl[a].0
                    != #[trigger] dl[b].0 by {
                    assert(players[a] == dl[a] && players[b] == dl[b]);
                }
            }
        }
    }
}

/// Collecting the players into a map by id keeps, for each id, the state of
/// its latest entry, and nothing twice: [`latest_entries`] lists exactly the
/// map that inserting the entries in order builds, with no id twice.
pub proof fn lemma_latest_entries(players: Seq<(Id, Player)>)
    ensures
        players_map(latest_entries(players)) == players_map(players),
        unique_ids(latest_entries(players)),
    decreases players.len(),
{
    if players.len() > 0 {
        let dl = players.drop_last();
        let last = players.last();
        lemma_latest_entries(dl);
        let l = latest_entries(dl);
        let w = without_id(l, last.0);
        lemma_without_id_map(l, last.0);
        lemma_without_id_entries(l, last.0);
        assert(w.push(last).drop_last() =~= w);
        assert(players_map(w.push(last)) =~= players_map(players));
        let wp = w.push(last);
        assert forall|a: int, b: int|
            0 <= a < wp.len() && 0 <= b < wp.len() && a != b implies #[trigger] wp[a].0
            != #[trigger] wp[b].0 by {
            if a < w.len() && b < w.len() {
                assert(wp[a] == w[a] && wp[b] == w[b]);
            } else if a < w.len() {
                assert(wp[a] == w[a]);
            } else {
                assert(wp[b] == w[b]);
            }
        }
    }
}

// ----- Laws -----

/// Whether a message is a `Sequence` with an acknowledgeable number.
pub open spec fn is_ackable_sequence(m: CUdpType) -> bool {
    match m {
        CUdpType::Sequence { sequence_number } => ackable(sequence_number),
        _ => false,
    }
}

/// The number a `Sequence` message carries (0 for other messages).
pub open spec fn sequence_value(m: CUdpType) -> SequenceNumber {
    match m {
        CUdpType::Sequence { sequence_number } => sequence_number,
        _ => 0,
    }
}

/// The acknowledgement is the highest acknowledgeable sequence number received:
/// it was received, no acknowledgeable number received is higher, and there is
/// one exactly when some acknowledgeable number was received.
pub proof fn lemma_highest_ack(messages: Seq<CUdpType>)
    ensures
        highest_ack(messages) matches Some(a) ==> ackable(a) && exists|i: int|
            0 <= i < messages.len() && #[trigger] messages[i] == (CUdpType::Sequence {
                sequence_number: a,
            }),
        forall|i: int|
            0 <= i < messages.len() && is_ackable_sequence(#[trigger] messages[i]) ==> highest_ack(
                messages,
            ) is Some && sequence_value(messages[i]) <= highest_ack(messages).unwrap(),
    decreases messages.len(),
{
    if messages.len() > 0 {
        let dl = messages.drop_last();
        lemma_highest_ack(dl);
        assert forall|i: int| 0 <= i < dl.len() implies #[trigger] messages[i] == dl[i] by {}
        if let Some(a) = highest_ack(messages) {
            if highest_ack(messages) != highest_ack(dl) {
                assert(messages[messages.len() - 1] == (CUdpType::Sequence { sequence_number: a }));
            } else {
                let i = choose|i: int|
                    0 <= i < dl.len() && #[trigger] dl[i] == (CUdpType::Sequence {
                        sequence_number: a,
                    });
                assert(messages[i] == dl[i]);
            }
        }
    }
}

/// A queued message is found by its kind.
pub proof fn lemma_added_kind_found(output: Seq<NetworkMessage<SUdpType>>, message: NetworkMessage<SUdpType>)
    ensures
        has_udp_kind(output.push(message), message.0),
{
    assert(output.push(message)[output.len() as int] == message);
}

/// A client whose datagrams this tick carried an acknowledgeable sequence
/// number has an acknowledgement queued afterwards, so the next
/// [`build_connection_messages`] sends it the players' states.
pub proof fn lemma_acked_clients_get_players(
    output: Seq<NetworkMessage<SUdpType>>,
    messages: Seq<CUdpType>,
    i: int,
)
    requires
        0 <= i < messages.len(),
        is_ackable_sequence(messages[i]),
    ensures
        has_udp_kind(
            output + ack_messages(highest_ack(messages)),
            SUdpType::Sequence { sequence_number: 0 },
        ),
{
    lemma_highest_ack(messages);
    assert(is_ackable_sequence(messages[i]));
    let a = highest_ack(messages).unwrap();
    let all = output + ack_messages(highest_ack(messages));
    assert(all[output.len() as int] == NetworkMessage(SUdpType::Sequence { sequence_number: a }));
    assert(same_udp_kind(all[output.len() as int].0, SUdpType::Sequence { sequence_number: 0 }));
}

/// Every chat line handed to the chat comes from a `ChatMessage` among the
/// messages, with that message's author and text.
pub proof fn lemma_chat_lines_carry_authors(messages: Seq<CTcpType>)
    ensures
        forall|k: int|
            0 <= k < chat_lines(messages).len() ==> exists|i: int|
                0 <= i < messages.len() && messages[i] == (CTcpType::ChatMessage {
                    player_id: (#[trigger] chat_lines(messages)[k]).0,
                    message: chat_lines(messages)[k].1,
                }),
    decreases messages.len(),
{
    if messages.len() > 0 {
        let dl = messages.drop_last();
        lemma_chat_lines_carry_authors(dl);
        assert forall|k: int| 0 <= k < chat_lines(messages).len() implies exists|i: int|
            0 <= i < messages.len() && messages[i] == (CTcpType::ChatMessage {
                player_id: (#[trigger] chat_lines(messages)[k]).0,
                message: chat_lines(messages)[k].1,
            }) by {
            if k < chat_lines(dl).len() {
                assert(chat_lines(messages)[k] == chat_lines(dl)[k]);
                let i = choose|i: int|
                    0 <= i < dl.len() && dl[i] == (CTcpType::ChatMessage {
                        player_id: chat_lines(dl)[k].0,
                        message: chat_lines(dl)[k].1,
                    });
                assert(messages[i] == dl[i]);
            } else {
                assert(messages[messages.len() - 1] == messages.last());
            }
        }
    }
}

/// Each `ChatMessage` yields the next chat line, with its author and text, and
/// a request to join yields none.
pub proof fn lemma_chat_line_per_message(
    messages: Seq<CTcpType>,
    player_id: Id,
    message: ChatMessage,
    lobby_id: Id,
)
    ensures
        chat_lines(messages.push(CTcpType::ChatMessage { player_id, message })) == chat_lines(
            messages,
        ).push((player_id, message)),
        chat_lines(messages.push(CTcpType::Join { lobby_id })) == chat_lines(messages),
{
    assert(messages.push(CTcpType::ChatMessage { player_id, message }).drop_last() =~= messages);
    assert(messages.push(CTcpType::Join { lobby_id }).drop_last() =~= messages);
}

/// What one `Input` message does: one input per player with its id, each
/// naming that player, carrying the message's mouse movement whatever keys are
/// held, and the keys exactly when some key is held.
pub proof fn lemma_inputs_for(players: Seq<Id>, keymask: BitMask, mouse_delta: MouseDelta, player_id: Id)
    requires
        players.len() <= usize::MAX,
    ensures
        forall|k: int|
            0 <= k < inputs_for(players, keymask, mouse_delta, player_id).len() ==> {
                let x = #[trigger] inputs_for(players, keymask, mouse_delta, player_id)[k];
                &&& x.player < players.len()
                &&& players[x.player as int] == player_id
                &&& x.mouse_delta == mouse_delta
                &&& x.movement == (if keymask != 0 {
                    Some(keymask)
                } else {
                    None
                })
            },
        forall|j: int|
            0 <= j < players.len() && players[j] == player_id ==> exists|k: int|
                0 <= k < inputs_for(players, keymask, mouse_delta, player_id).len() && (
                #[trigger] inputs_for(players, keymask, mouse_delta, player_id)[k]).player == j,
    decreases players.len(),
{
    if players.len() > 0 {
        let dl = players.drop_last();
        lemma_inputs_for(dl, keymask, mouse_delta, player_id);
        let prev = inputs_for(dl, keymask, mouse_delta, player_id);
        let all = inputs_for(players, keymask, mouse_delta, player_id);
        assert forall|k: int| 0 <= k < prev.len() implies #[trigger] all[k] == prev[k] by {}
        assert forall|k: int| 0 <= k < all.len() implies ({
            let x = #[trigger] all[k];
            &&& x.player < players.len()
            &&& players[x.player as int] == player_id
            &&& x.mouse_delta == mouse_delta
            &&& x.movement == (if keymask != 0 {
                Some(keymask)
            } else {
                None
            })
        }) by {
            if k < prev.len() {
                assert(all[k] == prev[k]);
                assert(players[prev[k].player as int] == dl[prev[k].player as int]);
            }
        }
        assert forall|j: int| 0 <= j < players.len() && players[j] == player_id implies exists|
            k: int,
        | 0 <= k < all.len() && (#[trigger] all[k]).player == j by {
            if j < dl.len() {
                assert(dl[j] == players[j]);
                let k = choose|k: int| 0 <= k < prev.len() && (#[trigger] prev[k]).player == j;
                assert(all[k] == prev[k]);
            } else {
                assert(all[all.len() - 1].player == j);
            }
        }
    }
}

/// The keys a player input reports: those held, or none.
pub open spec fn reported_keys(x: PlayerInput) -> BitMask {
    match x.movement {
        Some(k) => k,
        None => 0,
    }
}

/// Every player input comes from an `Input` message of the player's id, with
/// that message's keys (reported only when some key is held) and that
/// message's mouse movement.
pub proof fn lemma_player_inputs_carry_messages(messages: Seq<CUdpType>, players: Seq<Id>)
    requires
        players.len() <= usize::MAX,
    ensures
        forall|k: int|
            0 <= k < player_inputs(messages, players).len() ==> {
                let x = #[trigger] player_inputs(messages, players)[k];
                &&& x.player < players.len()
                &&& x.movement != Some(0u16)
                &&& exists|i: int|
                    0 <= i < messages.len() && messages[i] == (CUdpType::Input {
                        keymask: reported_keys(x),
                        mouse_delta: x.mouse_delta,
                        player_id: players[x.player as int],
                    })
            },
    decreases messages.len(),
{
    if messages.len() > 0 {
        let dl = messages.drop_last();
        lemma_player_inputs_carry_messages(dl, players);
        let prev = player_inputs(dl, players);
        let all = player_inputs(messages, players);
        assert forall|k: int| 0 <= k < all.len() implies ({
            let x = #[trigger] all[k];
            &&& x.player < players.len()
            &&& x.movement != Some(0u16)
            &&& exists|i: int|
                0 <= i < messages.len() && messages[i] == (CUdpType::Input {
                    keymask: reported_keys(x),
                    mouse_delta: x.mouse_delta,
                    player_id: players[x.player as int],
                })
        }) by {
            if k < prev.len() {
                match messages.last() {
                    CUdpType::Input { keymask, mouse_delta, player_id } => {
                        assert(all[k] == prev[k]);
                    },
                    _ => {},
                }
                let x = prev[k];
                let i = choose|i: int|
                    0 <= i < dl.len() && dl[i] == (CUdpType::Input {
                        keymask: reported_keys(x),
                        mouse_delta: x.mouse_delta,
                        player_id: players[x.player as int],
                    });
                assert(messages[i] == dl[i]);
            } else {
                match messages.last() {
                    CUdpType::Input { keymask, mouse_delta, player_id } => {
                        lemma_inputs_for(players, keymask, mouse_delta, player_id);
                        assert(all[k] == inputs_for(players, keymask, mouse_delta, player_id)[k
                            - prev.len()]);
                        assert(messages[messages.len() - 1] == messages.last());
                    },
                    _ => {},
                }
            }
        }
    }
}

} // verus!
