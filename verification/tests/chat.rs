use game_net::components::chat::{
    add_chat_message, send_chat_to_all_connections, Chat, ChatMessage, CHAT_HISTORY_LEN,
    MAX_CHAT_MESSAGE_LENGTH,
};
use game_net::components::common::Id;
use game_net::network::net_manage::{IpAddress, NetAddr, StreamKey, TcpConnection};
use game_net::network::net_message::STcpType;
use std::collections::VecDeque;

fn line(id: u32, text: &str) -> (Id, ChatMessage) {
    (Id(id), ChatMessage { message: text.to_string() })
}

fn texts(chat: &Chat) -> Vec<String> {
    chat.chat_history.iter().map(|(_, m)| m.message.clone()).collect()
}

fn empty_chat() -> Chat {
    Chat { chat_history: VecDeque::new() }
}

#[test]
fn chat_keeps_lines_in_order() {
    let mut chats = vec![empty_chat()];
    add_chat_message(line(1, "hello"), &mut chats);
    add_chat_message(line(2, "world"), &mut chats);
    assert_eq!(texts(&chats[0]), vec!["hello".to_string(), "world".to_string()]);
    assert_eq!(chats[0].chat_history[1].0, Id(2));
}

#[test]
fn chat_history_is_bounded() {
    let mut chats = vec![empty_chat()];
    for i in 0..25u32 {
        add_chat_message(line(i, &format!("line {}", i)), &mut chats);
        assert!(chats[0].chat_history.len() <= CHAT_HISTORY_LEN);
    }
    let expected: Vec<String> = (15..25).map(|i| format!("line {}", i)).collect();
    assert_eq!(texts(&chats[0]), expected);
}

#[test]
fn chat_rejects_long_lines_but_still_makes_room() {
    let mut chats = vec![empty_chat()];
    for i in 0..10u32 {
        add_chat_message(line(i, &format!("{}", i)), &mut chats);
    }
    assert_eq!(chats[0].chat_history.len(), 10);
    let long = "x".repeat(MAX_CHAT_MESSAGE_LENGTH + 1);
    add_chat_message(line(99, &long), &mut chats);
    assert_eq!(chats[0].chat_history.len(), 9);
    assert_eq!(texts(&chats[0])[0], "1");
    let exact = "y".repeat(MAX_CHAT_MESSAGE_LENGTH);
    add_chat_message(line(98, &exact), &mut chats);
    assert_eq!(chats[0].chat_history.len(), 10);
    assert_eq!(texts(&chats[0])[9], exact);
}

#[test]
fn chat_counts_bytes_not_characters() {
    let mut chats = vec![empty_chat()];
    // 25 two-byte characters: 50 bytes, accepted
    add_chat_message(line(1, &"é".repeat(25)), &mut chats);
    // 26 two-byte characters: 52 bytes, refused
    add_chat_message(line(2, &"é".repeat(26)), &mut chats);
    assert_eq!(chats[0].chat_history.len(), 1);
    assert_eq!(chats[0].chat_history[0].0, Id(1));
}

#[test]
fn chat_needs_exactly_one_chat() {
    let mut none: Vec<Chat> = vec![];
    add_chat_message(line(1, "hi"), &mut none);
    assert!(none.is_empty());
    let mut two = vec![empty_chat(), empty_chat()];
    add_chat_message(line(1, "hi"), &mut two);
    assert!(two[0].chat_history.is_empty());
    assert!(two[1].chat_history.is_empty());
}

fn key(n: u16) -> StreamKey {
    StreamKey {
        peer: Some(NetAddr { ip: IpAddress::V4(0x7f000001), port: n }),
        local: Some(NetAddr { ip: IpAddress::V4(0x7f000001), port: 4444 }),
    }
}

#[test]
fn chat_is_sent_to_every_stream_client() {
    let mut chats = vec![empty_chat()];
    add_chat_message(line(5, "gg"), &mut chats);
    let mut conns = vec![TcpConnection::new(key(1)), TcpConnection::new(key(2))];
    send_chat_to_all_connections(&chats, &mut conns);
    for c in conns.iter() {
        assert_eq!(c.output_message.len(), 1);
        match &c.output_message[0].0 {
            STcpType::Chat { messages } => {
                assert_eq!(messages.len(), 1);
                assert_eq!(messages[0].0, Id(5));
                assert_eq!(messages[0].1.message, "gg");
            }
            _ => panic!("expected a chat update"),
        }
    }
}

#[test]
fn chat_is_not_sent_without_a_single_chat() {
    let chats: Vec<Chat> = vec![];
    let mut conns = vec![TcpConnection::new(key(1))];
    send_chat_to_all_connections(&chats, &mut conns);
    assert!(conns[0].output_message.is_empty());
}
