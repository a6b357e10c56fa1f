use game_net::components::chat::{Chat, ChatMessage};
use game_net::components::common::{Id, Vec3};
use game_net::components::player::{AnimationState, Player};
use game_net::network::net_manage::{Connection, IpAddress, NetAddr, StreamKey, TcpConnection};
use game_net::network::net_message::{
    CTcpType, CUdpType, MouseDelta, NetworkMessage, STcpType, SUdpType,
};
use game_net::network::net_system::{
    same_stream, settle_tcp_send, settle_udp_send, tcp_net_receive, udp_net_receive, SendOutcome,
};
use game_net::network::net_tasks::{
    build_connection_messages, handle_tcp_message, handle_udp_message, latest_per_id,
    tcp_batch_len, udp_batch_len, MESSAGE_PER_TICK_MAX,
};
use game_net::network::server::server_join::{handle_join, welcome_player};
use game_net::util::generate_random_u32;
use std::collections::VecDeque;

fn addr(port: u16) -> NetAddr {
    NetAddr { ip: IpAddress::V4(0x0a000001), port }
}

fn key(port: u16) -> StreamKey {
    StreamKey { peer: Some(addr(port)), local: Some(addr(4444)) }
}

fn queued(c: &Connection) -> Vec<Vec<u8>> {
    c.input_packet_buffer.iter().map(|p| p.bytes.clone()).collect()
}

fn queued_tcp(c: &TcpConnection) -> Vec<Vec<u8>> {
    c.input_packet_buffer.iter().map(|p| p.bytes.clone()).collect()
}

#[test]
fn datagrams_go_to_the_connection_of_their_sender() {
    let mut conns = vec![Connection::new(addr(1)), Connection::new(addr(2))];
    let spawned = udp_net_receive(
        vec![(vec![1], addr(2)), (vec![2], addr(1)), (vec![3], addr(2))],
        &mut conns,
    );
    assert!(spawned.is_empty());
    assert_eq!(queued(&conns[0]), vec![vec![2]]);
    assert_eq!(queued(&conns[1]), vec![vec![1], vec![3]]);
}

#[test]
fn datagrams_from_strangers_open_connections() {
    let mut conns = vec![Connection::new(addr(1))];
    let spawned = udp_net_receive(
        vec![(vec![9], addr(7)), (vec![8], addr(1)), (vec![7], addr(7))],
        &mut conns,
    );
    // the new connections are not looked up within the same tick
    assert_eq!(spawned.len(), 2);
    assert_eq!(spawned[0].ip_addrs, addr(7));
    assert_eq!(queued(&spawned[0]), vec![vec![9]]);
    assert_eq!(queued(&spawned[1]), vec![vec![7]]);
    assert!(spawned[0].output_message.is_empty());
    assert_eq!(queued(&conns[0]), vec![vec![8]]);
}

#[test]
fn same_address_different_ip_version_is_different() {
    let v6 = NetAddr { ip: IpAddress::V6(0x0a000001), port: 1 };
    let mut conns = vec![Connection::new(addr(1))];
    let spawned = udp_net_receive(vec![(vec![1], v6)], &mut conns);
    assert_eq!(spawned.len(), 1);
    assert!(conns[0].input_packet_buffer.is_empty());
}

#[test]
fn datagrams_reach_the_first_of_twin_connections() {
    let mut conns = vec![Connection::new(addr(1)), Connection::new(addr(1))];
    let spawned = udp_net_receive(vec![(vec![5], addr(1))], &mut conns);
    assert!(spawned.is_empty());
    assert_eq!(queued(&conns[0]), vec![vec![5]]);
    assert!(conns[1].input_packet_buffer.is_empty());
}

#[test]
fn stream_data_is_routed_by_stream() {
    let mut conns = vec![TcpConnection::new(key(1))];
    let spawned = tcp_net_receive(vec![(vec![1, 2], key(1)), (vec![3], key(2))], &mut conns);
    assert_eq!(queued_tcp(&conns[0]), vec![vec![1, 2]]);
    assert_eq!(spawned.len(), 1);
    assert!(same_stream(&spawned[0].stream, &key(2)));
    assert_eq!(spawned[0].lobby_id, 0);
    assert_eq!(queued_tcp(&spawned[0]), vec![vec![3]]);
}

#[test]
fn streams_compare_both_addresses() {
    assert!(same_stream(&key(1), &key(1)));
    assert!(!same_stream(&key(1), &key(2)));
    let other_local = StreamKey { peer: Some(addr(1)), local: Some(addr(5555)) };
    assert!(!same_stream(&key(1), &other_local));
    let unknown = StreamKey { peer: None, local: None };
    assert!(same_stream(&unknown, &unknown));
    assert!(!same_stream(&unknown, &key(1)));
}

#[test]
fn queued_messages_are_found_by_kind() {
    let mut c = Connection::new(addr(1));
    assert!(c.is_empty_messages());
    assert!(!c.contains_message_type(&SUdpType::Sequence { sequence_number: 0 }));
    c.add_message(NetworkMessage(SUdpType::Pong { initiation_time: 1, server_received_time: 2 }));
    c.add_message(NetworkMessage(SUdpType::Sequence { sequence_number: 41 }));
    assert!(!c.is_empty_messages());
    assert_eq!(c.get_current_messages().len(), 2);
    assert!(c.contains_message_type(&SUdpType::Sequence { sequence_number: 0 }));
    assert!(!c.contains_message_type(&SUdpType::Players { players: vec![] }));
    c.clear_messages();
    assert!(c.is_empty_messages());
}

#[test]
fn sending_settles_the_queue() {
    let mut c = Connection::new(addr(1));
    c.add_message(NetworkMessage(SUdpType::Sequence { sequence_number: 1 }));
    assert!(settle_udp_send(&mut c, SendOutcome::EncodeFailed));
    assert_eq!(c.output_message.len(), 1);
    assert!(!settle_udp_send(&mut c, SendOutcome::ChannelFull));
    assert_eq!(c.output_message.len(), 1);
    assert!(!settle_udp_send(&mut c, SendOutcome::ChannelClosed));
    assert_eq!(c.output_message.len(), 1);
    assert!(settle_udp_send(&mut c, SendOutcome::Sent));
    assert!(c.output_message.is_empty());

    let mut t = TcpConnection::new(key(1));
    t.add_message(NetworkMessage(STcpType::PlayerId { player_uid: Id(1) }));
    assert!(!settle_tcp_send(&mut t, SendOutcome::ChannelClosed));
    assert_eq!(t.get_current_messages().len(), 1);
    assert!(settle_tcp_send(&mut t, SendOutcome::Sent));
    assert!(t.is_empty_messages());
}

fn with_packets(n: usize) -> Connection {
    let mut c = Connection::new(addr(1));
    let received: Vec<(Vec<u8>, NetAddr)> = (0..n).map(|i| (vec![i as u8], addr(1))).collect();
    let mut conns = vec![c];
    let _ = udp_net_receive(received, &mut conns);
    c = conns.pop().unwrap();
    c
}

fn acks(c: &Connection) -> Vec<u32> {
    c.output_message
        .iter()
        .filter_map(|m| match m.0 {
            SUdpType::Sequence { sequence_number } => Some(sequence_number),
            _ => None,
        })
        .collect()
}

#[test]
fn batches_hold_at_most_twenty_packets() {
    assert_eq!(MESSAGE_PER_TICK_MAX, 20);
    assert_eq!(udp_batch_len(&with_packets(0)), 0);
    assert_eq!(udp_batch_len(&with_packets(3)), 3);
    assert_eq!(udp_batch_len(&with_packets(25)), 20);
}

#[test]
fn datagrams_are_acknowledged_with_the_highest_sequence_number() {
    let mut c = with_packets(3);
    let decoded = vec![
        Some(vec![CUdpType::Sequence { sequence_number: 4 }, CUdpType::Sequence { sequence_number: 9 }]),
        None,
        Some(vec![CUdpType::Sequence { sequence_number: 7 }, CUdpType::Ping { initiation_time: 0, last_rtt: 0 }]),
    ];
    let inputs = handle_udp_message(&mut c, decoded, &vec![]);
    assert!(inputs.is_empty());
    assert_eq!(acks(&c), vec![9]);
    assert!(c.input_packet_buffer.is_empty());
}

#[test]
fn sequence_numbers_negative_as_i32_are_not_acknowledged() {
    let mut c = with_packets(1);
    let decoded = vec![Some(vec![
        CUdpType::Sequence { sequence_number: 0x8000_0000 },
        CUdpType::Sequence { sequence_number: 0xffff_ffff },
    ])];
    handle_udp_message(&mut c, decoded, &vec![]);
    assert!(acks(&c).is_empty());

    let mut c = with_packets(1);
    let decoded = vec![Some(vec![
        CUdpType::Sequence { sequence_number: 0x7fff_ffff },
        CUdpType::Sequence { sequence_number: 0x8000_0001 },
    ])];
    handle_udp_message(&mut c, decoded, &vec![]);
    assert_eq!(acks(&c), vec![0x7fff_ffff]);
}

#[test]
fn undecodable_datagrams_are_skipped_and_the_rest_dropped() {
    let mut c = with_packets(25);
    let decoded: Vec<Option<Vec<CUdpType>>> = (0..20).map(|_| None).collect();
    let inputs = handle_udp_message(&mut c, decoded, &vec![Id(1)]);
    assert!(inputs.is_empty());
    assert!(acks(&c).is_empty());
    assert!(c.input_packet_buffer.is_empty());
}

#[test]
fn inputs_reach_the_players_with_the_id() {
    let mut c = with_packets(2);
    let md = MouseDelta { x: 1.5f32.to_bits(), y: 0 };
    let decoded = vec![
        Some(vec![CUdpType::Input { keymask: 5, mouse_delta: md, player_id: Id(7) }]),
        Some(vec![CUdpType::Input { keymask: 0, mouse_delta: md, player_id: Id(8) }]),
    ];
    let players = vec![Id(8), Id(7), Id(9)];
    let inputs = handle_udp_message(&mut c, decoded, &players);
    assert_eq!(inputs.len(), 2);
    assert_eq!(inputs[0].player, 1);
    assert_eq!(inputs[0].movement, Some(5));
    assert_eq!(inputs[0].mouse_delta, md);
    assert_eq!(inputs[1].player, 0);
    assert_eq!(inputs[1].movement, None);
}

fn player(x: f32) -> Player {
    Player::new(
        Vec3::new(x.to_bits(), 0, 0),
        Vec3::new(0, 0, 0),
        0,
        0,
        AnimationState::Idle,
    )
}

#[test]
fn latest_state_per_id_wins() {
    let list = vec![(Id(1), player(1.0)), (Id(2), player(2.0)), (Id(1), player(3.0))];
    let latest = latest_per_id(&list);
    assert_eq!(latest, vec![(Id(2), player(2.0)), (Id(1), player(3.0))]);
}

#[test]
fn players_are_sent_to_acknowledged_clients_only() {
    let mut acked = Connection::new(addr(1));
    acked.add_message(NetworkMessage(SUdpType::Sequence { sequence_number: 3 }));
    let quiet = Connection::new(addr(2));
    let mut conns = vec![acked, quiet];
    build_connection_messages(&mut conns, vec![(Id(4), player(1.0)), (Id(4), player(2.0))]);
    assert_eq!(conns[0].output_message.len(), 2);
    match &conns[0].output_message[1].0 {
        SUdpType::Players { players } => assert_eq!(players, &vec![(Id(4), player(2.0))]),
        _ => panic!("expected the players' states"),
    }
    assert!(conns[1].output_message.is_empty());
}

#[test]
fn joining_tells_the_client_its_player_id() {
    let mut t = TcpConnection::new(key(1));
    let p = handle_join(Id(0), &mut t);
    assert_eq!(t.output_message.len(), 1);
    match &t.output_message[0].0 {
        STcpType::PlayerId { player_uid } => assert_eq!(*player_uid, p),
        _ => panic!("expected the player's id"),
    }
    let q = welcome_player(&mut t, 77);
    assert_eq!(q, Id(77));
    assert_eq!(t.output_message.len(), 2);
    let _ = generate_random_u32();
}

fn tcp_with_packets(n: usize) -> TcpConnection {
    let mut conns = vec![TcpConnection::new(key(1))];
    let received: Vec<(Vec<u8>, StreamKey)> = (0..n).map(|i| (vec![i as u8], key(1))).collect();
    let _ = tcp_net_receive(received, &mut conns);
    conns.pop().unwrap()
}

#[test]
fn stream_messages_feed_the_chat_and_the_lobby() {
    let mut t = tcp_with_packets(22);
    assert_eq!(tcp_batch_len(&t), 20);
    let mut decoded: Vec<Option<Vec<CTcpType>>> = (0..20).map(|_| None).collect();
    decoded[0] = Some(vec![
        CTcpType::ChatMessage { player_id: Id(3), message: ChatMessage { message: "hey".to_string() } },
        CTcpType::Join { lobby_id: Id(1) },
    ]);
    decoded[5] = Some(vec![CTcpType::Join { lobby_id: Id(1) }]);
    let mut chats = vec![Chat { chat_history: VecDeque::new() }];
    let joined = handle_tcp_message(&mut chats, &mut t, decoded);
    assert_eq!(joined.len(), 2);
    assert_eq!(chats[0].chat_history.len(), 1);
    assert_eq!(chats[0].chat_history[0].1.message, "hey");
    // packets past the batch stay queued
    assert_eq!(queued_tcp(&t), vec![vec![20], vec![21]]);
    assert_eq!(t.output_message.len(), 2);
    for (m, id) in t.output_message.iter().zip(joined.iter()) {
        match &m.0 {
            STcpType::PlayerId { player_uid } => assert_eq!(player_uid, id),
            _ => panic!("expected the player's id"),
        }
    }
}
