use vstd::prelude::*;
use std::collections::VecDeque;
use crate::network::net_message::{
    is_same_udp_kind, same_udp_kind, NetworkMessage, STcpType, SUdpType,
};

verus! {

/// The address part of a socket address.
#[derive(Clone, Copy, Debug, PartialEq, Eq, Structural)]
pub enum IpAddress {
    /// An IPv4 address, most significant octet first (`u32::from(Ipv4Addr)`).
    V4(u32),
    /// An IPv6 address, most significant octet first (`u128::from(Ipv6Addr)`).
    V6(u128),
}

/// A socket address: an IP address and a port.
#[derive(Clone, Copy, Debug, PartialEq, Eq, Structural)]
pub struct NetAddr {
    pub ip: IpAddress,
    pub port: u16,
}

/// What tells one stream connection from another: the remote and the local
/// address of the socket, each absent when the system could not report it.
#[derive(Clone, Copy, Debug)]
pub struct StreamKey {
    pub peer: Option<NetAddr>,
    pub local: Option<NetAddr>,
}

/// Raw bytes received from a peer and not yet decoded.
#[derive(Debug)]
pub struct Packet {
    pub bytes: Vec<u8>,
}

impl View for Packet {
    type V = Seq<u8>;

    open spec fn view(&self) -> Seq<u8> {
        self.bytes@
    }
}

/// The bytes of each packet of a queue, in order.
pub open spec fn packet_bytes(q: Seq<Packet>) -> Seq<Seq<u8>> {
    q.map_values(|p: Packet| p@)
}

/// A client reached over datagrams.
pub struct Connection {
    pub ip_addrs: NetAddr,
    pub input_packet_buffer: VecDeque<Packet>,
    pub output_message: Vec<NetworkMessage<SUdpType>>,
}

/// What a datagram connection holds: its address, the bytes of the packets
/// waiting to be handled, and the messages waiting to be sent.
pub struct ConnectionView {
    pub ip_addrs: NetAddr,
    pub input: Seq<Seq<u8>>,
    pub output: Seq<NetworkMessage<SUdpType>>,
}

impl View for Connection {
    type V = ConnectionView;

    open spec fn view(&self) -> ConnectionView {
        ConnectionView {
            ip_addrs: self.ip_addrs,
            input: packet_bytes(self.input_packet_buffer@),
            output: self.output_message@,
        }
    }
}

/// A client reached over a stream.
pub struct TcpConnection {
    pub stream: StreamKey,
    pub input_packet_buffer: VecDeque<Packet>,
    pub output_message: Vec<NetworkMessage<STcpType>>,
    pub lobby_id: u128,
}

/// What a stream connection holds.
pub struct TcpConnectionView {
    pub stream: StreamKey,
    pub input: Seq<Seq<u8>>,
    pub output: Seq<NetworkMessage<STcpType>>,
    pub lobby_id: u128,
}

impl View for TcpConnection {
    type V = TcpConnectionView;

    open spec fn view(&self) -> TcpConnectionView {
        TcpConnectionView {
            stream: self.stream,
            input: packet_bytes(self.input_packet_buffer@),
            output: self.output_message@,
            lobby_id: self.lobby_id,
        }
    }
}

/// Whether some queued message is of the same kind as `kind`.
pub open spec fn has_udp_kind(output: Seq<NetworkMessage<SUdpType>>, kind: SUdpType) -> bool {
    exists|i: int| 0 <= i < output.len() && same_udp_kind(#[trigger] output[i].0, kind)
}

impl Connection {
    pub fn new(ip_addrs: NetAddr) -> (r: Self)
        ensures
            r@.ip_addrs == ip_addrs,
            r@.input == Seq::<Seq<u8>>::empty(),
            r@.output == Seq::<NetworkMessage<SUdpType>>::empty(),
    {
        let r = Self { ip_addrs, input_packet_buffer: VecDeque::new(), output_message: Vec::new() };
        assert(r@.input =~= Seq::<Seq<u8>>::empty());
        r
    }

    /// Queues a message for the next send.
    pub fn add_message(&mut self, message: NetworkMessage<SUdpType>)
        ensures
            final(self)@.ip_addrs == old(self)@.ip_addrs,
            final(self)@.input == old(self)@.input,
            final(self)@.output == old(self)@.output.push(message),
    {
        self.output_message.push(message);
    }

    pub fn is_empty_messages(&self) -> (r: bool)
        ensures
            r == (self@.output.len() == 0),
    {
        self.output_message.len() == 0
    }

    pub fn get_current_messages(&self) -> (r: &Vec<NetworkMessage<SUdpType>>)
        ensures
            r@ == self@.output,
    {
        &self.output_message
    }

    /// Drops every queued message.
    pub fn clear_messages(&mut self)
        ensures
            final(self)@.ip_addrs == old(self)@.ip_addrs,
            final(self)@.input == old(self)@.input,
            final(self)@.output == Seq::<NetworkMessage<SUdpType>>::empty(),
    {
        self.output_message.clear();
    }

    /// Whether a message of the same kind as `message_type` is queued
    /// (the payload of `message_type` does not matter).
    pub fn contains_message_type(&self, message_type: &SUdpType) -> (r: bool)
        ensures
            r == has_udp_kind(self@.output, *message_type),
    {
        let n = self.output_message.len();
        for i in 0..n
            invariant
                n == self.output_message@.len(),
                forall|k: int| 0 <= k < i ==> !same_udp_kind(#[trigger] self.output_message@[k].0, *message_type),
        {
            if is_same_udp_kind(&self.output_message[i].0, message_type) {
                return true;
            }
        }
        false
    }
}

impl TcpConnection {
    pub fn new(stream: StreamKey) -> (r: Self)
        ensures
            r@.stream == stream,
            r@.input == Seq::<Seq<u8>>::empty(),
            r@.output == Seq::<NetworkMessage<STcpType>>::empty(),
            r@.lobby_id == 0,
    {
        let r = Self {
            stream,
            lobby_id: 0,
            input_packet_buffer: VecDeque::new(),
            output_message: Vec::new(),
        };
        assert(r@.input =~= Seq::<Seq<u8>>::empty());
        r
    }

    /// Queues a message for the next send.
    pub fn add_message(&mut self, message: NetworkMessage<STcpType>)
        ensures
            final(self)@.stream == old(self)@.stream,
            final(self)@.input == old(self)@.input,
            final(self)@.lobby_id == old(self)@.lobby_id,
            final(self)@.output == old(self)@.output.push(message),
    {
        self.output_message.push(message);
    }

    pub fn is_empty_messages(&self) -> (r: bool)
        ensures
            r == (self@.output.len() == 0),
    {
        self.output_message.len() == 0
    }

    pub fn get_current_messages(&self) -> (r: &Vec<NetworkMessage<STcpType>>)
        ensures
            r@ == self@.output,
    {
        &self.output_message
    }

    /// Drops every queued message.
    pub fn clear_messages(&mut self)
        ensures
            final(self)@.stream == old(self)@.stream,
            final(self)@.input == old(self)@.input,
            final(self)@.lobby_id == old(self)@.lobby_id,
            final(self)@.output == Seq::<NetworkMessage<STcpType>>::empty(),
    {
        self.output_message.clear();
    }
}

} // verus!
