use vstd::prelude::*;
use crate::components::chat::ChatMessage;
use crate::components::common::Id;
use crate::components::player::Player;

verus! {

pub type SequenceNumber = u32;

pub type BitMask = u16;

/// Marks the payload types that travel inside a [`NetworkMessage`].
pub trait NetworkMessageType {}

/// One message queued for, or received from, a peer.
#[derive(Clone, Debug)]
pub struct NetworkMessage<T: NetworkMessageType>(pub T);

/// A mouse movement; each axis is the IEEE-754 bit pattern of an `f32`.
#[derive(Clone, Copy, Debug, PartialEq, Eq, Structural)]
pub struct MouseDelta {
    pub x: u32,
    pub y: u32,
}

/// Datagrams a client sends to the server.
#[derive(Clone, Copy, Debug, PartialEq, Eq, Structural)]
pub enum CUdpType {
    Sequence { sequence_number: SequenceNumber },
    Input { keymask: BitMask, mouse_delta: MouseDelta, player_id: Id },
    Ping { initiation_time: u32, last_rtt: u32 },
}

/// Datagrams the server sends to a client.
///
/// `Players` carries one entry per player id (a map from id to state).
#[derive(Clone, Debug)]
pub enum SUdpType {
    Sequence { sequence_number: SequenceNumber },
    Players { players: Vec<(Id, Player)> },
    Pong { initiation_time: u32, server_received_time: u32 },
}

impl NetworkMessageType for CUdpType {}

impl NetworkMessageType for SUdpType {}

/// Stream messages a client sends to the server.
#[derive(Clone, Debug)]
pub enum CTcpType {
    ChatMessage { player_id: Id, message: ChatMessage },
    Join { lobby_id: Id },
}

/// Stream messages the server sends to a client.
#[derive(Clone, Debug)]
pub enum STcpType {
    PlayerId { player_uid: Id },
    Chat { messages: Vec<(Id, ChatMessage)> },
}

impl NetworkMessageType for CTcpType {}

impl NetworkMessageType for STcpType {}

/// Whether two server datagrams are of the same kind (variant), whatever they carry.
pub open spec fn same_udp_kind(a: SUdpType, b: SUdpType) -> bool {
    match (a, b) {
        (SUdpType::Sequence { .. }, SUdpType::Sequence { .. }) => true,
        (SUdpType::Players { .. }, SUdpType::Players { .. }) => true,
        (SUdpType::Pong { .. }, SUdpType::Pong { .. }) => true,
        _ => false,
    }
}

/// Tells whether two server datagrams are of the same kind.
pub fn is_same_udp_kind(a: &SUdpType, b: &SUdpType) -> (r: bool)
    ensures
        r == same_udp_kind(*a, *b),
{
    match (a, b) {
        (SUdpType::Sequence { .. }, SUdpType::Sequence { .. }) => true,
        (SUdpType::Players { .. }, SUdpType::Players { .. }) => true,
        (SUdpType::Pong { .. }, SUdpType::Pong { .. }) => true,
        _ => false,
    }
}

} // verus!
