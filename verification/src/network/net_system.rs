use vstd::prelude::*;
use crate::network::net_manage::{
    packet_bytes, Connection, ConnectionView, NetAddr, Packet, StreamKey, TcpConnection, TcpConnectionView,
};

verus! {

/// The index of the first key in `keys` equal to `key`, if any.
pub open spec fn first_index_of<K>(keys: Seq<K>, key: K) -> Option<int>
    decreases keys.len(),
{
    if keys.len() == 0 {
        None
    } else {
        match first_index_of(keys.drop_last(), key) {
            Some(i) => Some(i),
            None => if keys.last() == key {
                Some(keys.len() - 1)
            } else {
                None
            },
        }
    }
}

/// The bytes, in order of arrival, of the received packets whose sender's key
/// is first found at index `j` of `keys`.
pub open spec fn routed_to<K>(received: Seq<(Vec<u8>, K)>, keys: Seq<K>, j: int) -> Seq<Seq<u8>>
    decreases received.len(),
{
    if received.len() == 0 {
        Seq::empty()
    } else {
        let prev = routed_to(received.drop_last(), keys, j);
        let r = received.last();
        if first_index_of(keys, r.1) == Some(j) {
            prev.push(r.0@)
        } else {
            prev
        }
    }
}

/// The received packets, in order of arrival, whose sender's key is not in `keys`.
pub open spec fn unrouted<K>(received: Seq<(Vec<u8>, K)>, keys: Seq<K>) -> Seq<(K, Seq<u8>)>
    decreases received.len(),
{
    if received.len() == 0 {
        Seq::empty()
    } else {
        let prev = unrouted(received.drop_last(), keys);
        let r = received.last();
        if first_index_of(keys, r.1) is None {
            prev.push((r.1, r.0@))
        } else {
            prev
        }
    }
}

/// Whether `c` is the connection opened for a packet from an unknown sender.
pub open spec fn opened_for(c: ConnectionView, u: (NetAddr, Seq<u8>)) -> bool {
    &&& c.ip_addrs == u.0
    &&& c.input == seq![u.1]
    &&& c.output.len() == 0
}

pub open spec fn udp_addresses(connections: Seq<Connection>) -> Seq<NetAddr> {
    connections.map_values(|c: Connection| c.ip_addrs)
}

pub open spec fn tcp_streams(connections: Seq<TcpConnection>) -> Seq<StreamKey> {
    connections.map_values(|c: TcpConnection| c.stream)
}

/// The index of the first connection at `addr`.
fn find_udp_connection(connections: &Vec<Connection>, addr: NetAddr) -> (r: Option<usize>)
    ensures
        match r {
            Some(j) => first_index_of(udp_addresses(connections@), addr) == Some(j as int),
            None => first_index_of(udp_addresses(connections@), addr) is None,
        },
{
    let ghost addrs = udp_addresses(connections@);
    let n = connections.len();
    let mut j: usize = 0;
    while j < n
        invariant
            n == connections@.len(),
            addrs == udp_addresses(connections@),
            j <= n,
            first_index_of(addrs.take(j as int), addr) is None,
        decreases n - j,
    {
        assert(addrs.take(j + 1).drop_last() =~= addrs.take(j as int));
        if connections[j].ip_addrs == addr {
            proof { lemma_first_index_prefix(addrs, j + 1, addr); }
            return Some(j);
        }
        j = j + 1;
    }
    assert(addrs.take(n as int) =~= addrs);
    None
}

/// A key found in a prefix is found at the same index in the whole sequence.
proof fn lemma_first_index_prefix<K>(keys: Seq<K>, len: int, key: K)
    requires
        0 <= len <= keys.len(),
        first_index_of(keys.take(len), key) is Some,
    ensures
        first_index_of(keys, key) == first_index_of(keys.take(len), key),
    decreases keys.len(),
{
    if len < keys.len() {
        assert(keys.drop_last().take(len) =~= keys.take(len));
        lemma_first_index_prefix(keys.drop_last(), len, key);
    } else {
        assert(keys.take(len) =~= keys);
    }
}

/// Where a key is found, it is at that index.
proof fn lemma_first_index_found<K>(keys: Seq<K>, key: K)
    ensures
        first_index_of(keys, key) matches Some(j) ==> 0 <= j < keys.len() && keys[j] == key,
    decreases keys.len(),
{
    if keys.len() > 0 {
        lemma_first_index_found(keys.drop_last(), key);
    }
}

/// A copy of a byte buffer.
fn copy_bytes(b: &Vec<u8>) -> (r: Vec<u8>)
    ensures
        r@ == b@,
{
    b.clone()
}

/// Routes the datagrams received this tick. Each `(bytes, address)` goes, in
/// order, to the input buffer of the first connection at that address; a
/// datagram from an address that no connection has yields a connection of its
/// own, among those returned (which are not looked up for later datagrams).
pub fn udp_net_receive(received: Vec<(Vec<u8>, NetAddr)>, connections: &mut Vec<Connection>) -> (spawned: Vec<Connection>)
    ensures
        final(connections)@.len() == old(connections)@.len(),
        forall|j: int|
            0 <= j < old(connections)@.len() ==> {
                let before = #[trigger] old(connections)@[j]@;
                let after = final(connections)@[j]@;
                &&& after.ip_addrs == before.ip_addrs
                &&& after.output == before.output
                &&& after.input == before.input + routed_to(
                    received@,
                    udp_addresses(old(connections)@),
                    j,
                )
            },
        spawned@.len() == unrouted(received@, udp_addresses(old(connections)@)).len(),
        forall|k: int| 0 <= k < spawned@.len() ==> opened_for(#[trigger] spawned@[k]@, unrouted(received@, udp_addresses(old(connections)@))[k]),
{
    let ghost addrs = udp_addresses(connections@);
    let mut spawned: Vec<Connection> = Vec::new();
    let n = received.len();
    for i in 0..n
        invariant
            n == received@.len(),
            connections@.len() == old(connections)@.len(),
            addrs == udp_addresses(old(connections)@),
            addrs == udp_addresses(connections@),
            forall|j: int|
                0 <= j < old(connections)@.len() ==> {
                    let before = #[trigger] old(connections)@[j]@;
                    let after = connections@[j]@;
                    &&& after.ip_addrs == before.ip_addrs
                    &&& after.output == before.output
                    &&& after.input == before.input + routed_to(
                        received@.take(i as int),
                        addrs,
                        j,
                    )
                },
            spawned@.len() == unrouted(received@.take(i as int), addrs).len(),
            forall|k: int| 0 <= k < spawned@.len() ==> opened_for(#[trigger] spawned@[k]@, unrouted(received@.take(i as int), addrs)[k]),
    {
        let ghost prefix = received@.take(i as int);
        let ghost next = received@.take(i + 1);
        assert(next.drop_last() =~= prefix);
        let addr = received[i].1;
        let bytes = copy_bytes(&received[i].0);
        proof { lemma_first_index_found(addrs, addr); }
        match find_udp_connection(connections, addr) {
            Some(j) => {
                assert(unrouted(next, addrs) == unrouted(prefix, addrs));
                let ghost q0 = connections@[j as int].input_packet_buffer@;
                let ghost b = bytes@;
                connections[j].input_packet_buffer.push_back(Packet { bytes });
                assert(packet_bytes(q0.push(Packet { bytes: received@[i as int].0 })) =~= packet_bytes(q0).push(b));
                assert(routed_to(next, addrs, j as int) == routed_to(prefix, addrs, j as int).push(b));
                assert forall|k: int| 0 <= k < old(connections)@.len() implies {
                    let before = #[trigger] old(connections)@[k]@;
                    let after = connections@[k]@;
                    &&& after.ip_addrs == before.ip_addrs
                    &&& after.output == before.output
                    &&& after.input == before.input + routed_to(next, addrs, k)
                } by {
                    if k == j {
                        assert(old(connections)@[k]@.input + routed_to(prefix, addrs, k).push(b) =~= (
                        old(connections)@[k]@.input + routed_to(prefix, addrs, k)).push(b));
                    } else {
                        assert(routed_to(next, addrs, k) == routed_to(prefix, addrs, k));
                    }
                }
            },
            None => {
                let ghost bv = bytes@;
                let mut c = Connection::new(addr);
                c.input_packet_buffer.push_back(Packet { bytes });
                assert(c@.input =~= seq![bv]);
                assert(unrouted(next, addrs) == unrouted(prefix, addrs).push((addr, bv)));
                let ghost old_spawned = spawned@;
                spawned.push(c);
                assert forall|k: int| 0 <= k < old(connections)@.len() implies
                    routed_to(next, addrs, k) == routed_to(prefix, addrs, k) by {}
                assert forall|k: int| 0 <= k < spawned@.len() implies opened_for(#[trigger] spawned@[k]@, unrouted(next, addrs)[k]) by {
                    if k < spawned@.len() - 1 {
                        assert(unrouted(next, addrs)[k] == unrouted(prefix, addrs)[k]);
                        assert(spawned@[k] == old_spawned[k]);
                    }
                }
            },
        }
    }
    assert(received@.take(n as int) =~= received@);
    spawned
}

/// Routes the stream data received this tick. Each `(bytes, stream)` goes, in
/// order, to the input buffer of the first connection on the same stream (see
/// [`same_stream`]); data from a stream that no connection has yields a
/// connection of its own, among those returned (which are not looked up for
/// later data).
pub fn tcp_net_receive(received: Vec<(Vec<u8>, StreamKey)>, connections: &mut Vec<TcpConnection>) -> (spawned: Vec<TcpConnection>)
    ensures
        final(connections)@.len() == old(connections)@.len(),
        forall|j: int|
            0 <= j < old(connections)@.len() ==> {
                let before = #[trigger] old(connections)@[j]@;
                let after = final(connections)@[j]@;
                &&& after.stream == before.stream
                    &&& after.lobby_id == before.lobby_id
                &&& after.output == before.output
                &&& after.input == before.input + routed_to(
                    received@,
                    tcp_streams(old(connections)@),
                    j,
                )
            },
        spawned@.len() == unrouted(received@, tcp_streams(old(connections)@)).len(),
        forall|k: int| 0 <= k < spawned@.len() ==> opened_tcp_for(#[trigger] spawned@[k]@, unrouted(received@, tcp_streams(old(connections)@))[k]),
{
    let ghost addrs = tcp_streams(connections@);
    let mut spawned: Vec<TcpConnection> = Vec::new();
    let n = received.len();
    for i in 0..n
        invariant
            n == received@.len(),
            connections@.len() == old(connections)@.len(),
            addrs == tcp_streams(old(connections)@),
            addrs == tcp_streams(connections@),
            forall|j: int|
                0 <= j < old(connections)@.len() ==> {
                    let before = #[trigger] old(connections)@[j]@;
                    let after = connections@[j]@;
                    &&& after.stream == before.stream
                    &&& after.lobby_id == before.lobby_id
                    &&& after.output == before.output
                    &&& after.input == before.input + routed_to(
                        received@.take(i as int),
                        addrs,
                        j,
                    )
                },
            spawned@.len() == unrouted(received@.take(i as int), addrs).len(),
            forall|k: int| 0 <= k < spawned@.len() ==> opened_tcp_for(#[trigger] spawned@[k]@, unrouted(received@.take(i as int), addrs)[k]),
    {
        let ghost prefix = received@.take(i as int);
        let ghost next = received@.take(i + 1);
        assert(next.drop_last() =~= prefix);
        let addr = received[i].1;
        let bytes = copy_bytes(&received[i].0);
        proof { lemma_first_index_found(addrs, addr); }
        match find_tcp_connection(connections, addr) {
            Some(j) => {
                assert(unrouted(next, addrs) == unrouted(prefix, addrs));
                let ghost q0 = connections@[j as int].input_packet_buffer@;
                let ghost b = bytes@;
                connections[j].input_packet_buffer.push_back(Packet { bytes });
                assert(packet_bytes(q0.push(Packet { bytes: received@[i as int].0 })) =~= packet_bytes(q0).push(b));
                assert(routed_to(next, addrs, j as int) == routed_to(prefix, addrs, j as int).push(b));
                assert forall|k: int| 0 <= k < old(connections)@.len() implies {
                    let before = #[trigger] old(connections)@[k]@;
                    let after = connections@[k]@;
                    &&& after.stream == before.stream
                    &&& after.lobby_id == before.lobby_id
                    &&& after.output == before.output
                    &&& after.input == before.input + routed_to(next, addrs, k)
                } by {
                    if k == j {
                        assert(old(connections)@[k]@.input + routed_to(prefix, addrs, k).push(b) =~= (
                        old(connections)@[k]@.input + routed_to(prefix, addrs, k)).push(b));
                    } else {
                        assert(routed_to(next, addrs, k) == routed_to(prefix, addrs, k));
                    }
                }
            },
            None => {
                let ghost bv = bytes@;
                let mut c = TcpConnection::new(addr);
                c.input_packet_buffer.push_back(Packet { bytes });
                assert(c@.input =~= seq![bv]);
                assert(unrouted(next, addrs) == unrouted(prefix, addrs).push((addr, bv)));
                let ghost old_spawned = spawned@;
                spawned.push(c);
                assert forall|k: int| 0 <= k < old(connections)@.len() implies
                    routed_to(next, addrs, k) == routed_to(prefix, addrs, k) by {}
                assert forall|k: int| 0 <= k < spawned@.len() implies opened_tcp_for(#[trigger] spawned@[k]@, unrouted(next, addrs)[k]) by {
                    if k < spawned@.len() - 1 {
                        assert(unrouted(next, addrs)[k] == unrouted(prefix, addrs)[k]);
                        assert(spawned@[k] == old_spawned[k]);
                    }
                }
            },
        }
    }
    assert(received@.take(n as int) =~= received@);
    spawned
}

/// Whether two stream connections are the same: both the remote and the local
/// address agree (an address that could not be reported counts as a value of
/// its own).
pub fn same_stream(a: &StreamKey, b: &StreamKey) -> (r: bool)
    ensures
        r == (*a == *b),
{
    let peer = match (a.peer, b.peer) {
        (Some(x), Some(y)) => x == y,
        (None, None) => true,
        _ => false,
    };
    let local = match (a.local, b.local) {
        (Some(x), Some(y)) => x == y,
        (None, None) => true,
        _ => false,
    };
    peer && local
}

/// The index of the first connection on the same stream as `key`.
fn find_tcp_connection(connections: &Vec<TcpConnection>, key: StreamKey) -> (r: Option<usize>)
    ensures
        match r {
            Some(j) => first_index_of(tcp_streams(connections@), key) == Some(j as int),
            None => first_index_of(tcp_streams(connections@), key) is None,
        },
{
    let ghost keys = tcp_streams(connections@);
    let n = connections.len();
    let mut j: usize = 0;
    while j < n
        invariant
            n == connections@.len(),
            keys == tcp_streams(connections@),
            j <= n,
            first_index_of(keys.take(j as int), key) is None,
        decreases n - j,
    {
        assert(keys.take(j + 1).drop_last() =~= keys.take(j as int));
        if same_stream(&connections[j].stream, &key) {
            assert(keys.take(j + 1).last() == key);
            proof { lemma_first_index_prefix(keys, j + 1, key); }
            return Some(j);
        }
        j = j + 1;
    }
    assert(keys.take(n as int) =~= keys);
    None
}

/// Whether `c` is the connection opened for data from an unknown stream.
pub open spec fn opened_tcp_for(c: TcpConnectionView, u: (StreamKey, Seq<u8>)) -> bool {
    &&& c.stream == u.0
    &&& c.input == seq![u.1]
    &&& c.output.len() == 0
    &&& c.lobby_id == 0
}

/// What became of one attempt to hand a connection's queued messages to the
/// sending task.
#[derive(Clone, Copy, Debug, PartialEq, Eq, Structural)]
pub enum SendOutcome {
    /// The messages could not be encoded; nothing was handed over.
    EncodeFailed,
    /// The encoded messages were handed over.
    Sent,
    /// The sending queue is full.
    ChannelFull,
    /// The sending task is gone.
    ChannelClosed,
}

/// Whether the send loop goes on to the next connection after `outcome`.
pub open spec fn keeps_sending(outcome: SendOutcome) -> bool {
    outcome == SendOutcome::Sent || outcome == SendOutcome::EncodeFailed
}

/// Settles one send attempt of a datagram connection: the queue is emptied
/// once its messages were handed over, and kept otherwise. Returns whether the
/// send loop goes on (it stops when the sending queue is full or closed).
pub fn settle_udp_send(connection: &mut Connection, outcome: SendOutcome) -> (keep_sending: bool)
    ensures
        keep_sending == keeps_sending(outcome),
        final(connection)@.ip_addrs == old(connection)@.ip_addrs,
        final(connection)@.input == old(connection)@.input,
        outcome == SendOutcome::Sent ==> final(connection)@.output.len() == 0,
        outcome != SendOutcome::Sent ==> final(connection)@.output == old(connection)@.output,
{
    match outcome {
        SendOutcome::Sent => {
            connection.clear_messages();
            true
        },
        SendOutcome::EncodeFailed => true,
        SendOutcome::ChannelFull => false,
        SendOutcome::ChannelClosed => false,
    }
}

/// Settles one send attempt of a stream connection, as [`settle_udp_send`] does.
pub fn settle_tcp_send(connection: &mut TcpConnection, outcome: SendOutcome) -> (keep_sending: bool)
    ensures
        keep_sending == keeps_sending(outcome),
        final(connection)@.stream == old(connection)@.stream,
        final(connection)@.input == old(connection)@.input,
        final(connection)@.lobby_id == old(connection)@.lobby_id,
        outcome == SendOutcome::Sent ==> final(connection)@.output.len() == 0,
        outcome != SendOutcome::Sent ==> final(connection)@.output == old(connection)@.output,
{
    match outcome {
        SendOutcome::Sent => {
            connection.clear_messages();
            true
        },
        SendOutcome::EncodeFailed => true,
        SendOutcome::ChannelFull => false,
        SendOutcome::ChannelClosed => false,
    }
}

/// How many received packets go to the first `m` connections.
pub open spec fn routed_count<K>(received: Seq<(Vec<u8>, K)>, keys: Seq<K>, m: int) -> int
    decreases m,
{
    if m <= 0 {
        0
    } else {
        routed_count(received, keys, m - 1) + routed_to(received, keys, m - 1).len()
    }
}

proof fn lemma_routed_count_step<K>(received: Seq<(Vec<u8>, K)>, keys: Seq<K>, m: int)
    requires
        received.len() > 0,
    ensures
        routed_count(received, keys, m) == routed_count(received.drop_last(), keys, m) + (
        match first_index_of(keys, received.last().1) {
            Some(j) => if 0 <= j < m {
                1int
            } else {
                0int
            },
            None => 0int,
        }),
    decreases m,
{
    if m > 0 {
        lemma_routed_count_step(received, keys, m - 1);
    }
}

proof fn lemma_routed_count_none<K>(received: Seq<(Vec<u8>, K)>, keys: Seq<K>, m: int)
    requires
        received.len() == 0,
    ensures
        routed_count(received, keys, m) == 0,
    decreases m,
{
    if m > 0 {
        lemma_routed_count_none(received, keys, m - 1);
    }
}

/// Routing loses and duplicates nothing: the packets that go to existing
/// connections and those that open new ones are, in number, the packets received.
pub proof fn lemma_routing_conserves_packets<K>(received: Seq<(Vec<u8>, K)>, keys: Seq<K>)
    ensures
        routed_count(received, keys, keys.len() as int) + unrouted(received, keys).len()
            == received.len(),
    decreases received.len(),
{
    if received.len() > 0 {
        lemma_routing_conserves_packets(received.drop_last(), keys);
        lemma_routed_count_step(received, keys, keys.len() as int);
        lemma_first_index_found(keys, received.last().1);
    } else {
        lemma_routed_count_none(received, keys, keys.len() as int);
    }
}

} // verus!
