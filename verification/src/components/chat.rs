use vstd::prelude::*;
use std::collections::VecDeque;
use crate::components::common::Id;
use crate::network::net_manage::TcpConnection;
use crate::network::net_message::{NetworkMessage, STcpType};

verus! {

/// How many chat lines the history keeps.
pub const CHAT_HISTORY_LEN: usize = 10;

/// The longest chat line, in bytes of UTF-8, that the history accepts.
pub const MAX_CHAT_MESSAGE_LENGTH: usize = 50;

/// The lobby chat: the most recent lines, oldest first, with who wrote them.
pub struct Chat {
    pub chat_history: VecDeque<(Id, ChatMessage)>,
}

/// A chat line as a client typed it.
#[derive(Clone, Debug)]
pub struct ChatMessage {
    pub message: String,
}

/// The length of a chat line in bytes of UTF-8, as `str::len` reports it.
pub open spec fn message_len(m: ChatMessage) -> usize {
    vstd::utf8::encode_utf8(m.message@).len() as usize
}

/// Whether a chat line is short enough to enter the history.
pub open spec fn fits_in_chat(m: ChatMessage) -> bool {
    message_len(m) <= MAX_CHAT_MESSAGE_LENGTH
}

/// The history after one line was offered to it: the oldest lines go until
/// there is room for one more, then the line is appended if it fits.
/// (A line that does not fit still makes room.)
pub open spec fn history_after(
    history: Seq<(Id, ChatMessage)>,
    line: (Id, ChatMessage),
) -> Seq<(Id, ChatMessage)> {
    let kept = if history.len() >= CHAT_HISTORY_LEN {
        history.skip(history.len() - (CHAT_HISTORY_LEN - 1))
    } else {
        history
    };
    if fits_in_chat(line.1) {
        kept.push(line)
    } else {
        kept
    }
}

/// A copy of a chat line.
pub(crate) fn copy_chat_message(m: &ChatMessage) -> (r: ChatMessage)
    ensures
        r == *m,
{
    ChatMessage { message: m.message.clone() }
}

/// Offers a line to one chat.
fn offer_line(chat: &mut Chat, message: (Id, ChatMessage))
    ensures
        final(chat).chat_history@ == history_after(old(chat).chat_history@, message),
{
    let ghost h0 = chat.chat_history@;
    while chat.chat_history.len() >= CHAT_HISTORY_LEN
        invariant
            chat.chat_history@.len() <= h0.len(),
            chat.chat_history@ == h0.skip(h0.len() - chat.chat_history@.len()),
            h0.len() >= CHAT_HISTORY_LEN ==> chat.chat_history@.len() >= CHAT_HISTORY_LEN - 1,
            h0.len() < CHAT_HISTORY_LEN ==> chat.chat_history@ == h0,
        decreases chat.chat_history@.len(),
    {
        chat.chat_history.pop_front();
        assert(chat.chat_history@ =~= h0.skip(h0.len() - chat.chat_history@.len()));
    }
    proof {
        if h0.len() < CHAT_HISTORY_LEN {
            assert(h0.skip(0) =~= h0);
        }
    }
    if !(message.1.message.as_str().len() > MAX_CHAT_MESSAGE_LENGTH) {
        chat.chat_history.push_back(message);
    }
}

/// Offers a line to the lobby chat. `chat` holds every chat the world has;
/// the line goes to the chat only when there is exactly one.
pub fn add_chat_message(message: (Id, ChatMessage), chat: &mut Vec<Chat>)
    ensures
        old(chat)@.len() == 1 ==> final(chat)@.len() == 1 && final(chat)@[0].chat_history@
            == history_after(old(chat)@[0].chat_history@, message),
        old(chat)@.len() != 1 ==> final(chat)@ == old(chat)@,
{
    if chat.len() == 1 {
        let mut c = chat.pop().unwrap();
        offer_line(&mut c, message);
        chat.push(c);
    }
}

/// Whether `m` is the message that shares a chat history with a client.
pub open spec fn is_chat_update(m: NetworkMessage<STcpType>, history: Seq<(Id, ChatMessage)>) -> bool {
    match m.0 {
        STcpType::Chat { messages } => messages@ == history,
        _ => false,
    }
}

/// The history of a chat, as a vector.
fn history_lines(chat: &Chat) -> (r: Vec<(Id, ChatMessage)>)
    ensures
        r@ == chat.chat_history@,
{
    let mut r: Vec<(Id, ChatMessage)> = Vec::new();
    let n = chat.chat_history.len();
    for i in 0..n
        invariant
            n == chat.chat_history@.len(),
            r@ == chat.chat_history@.take(i as int),
    {
        let line = &chat.chat_history[i];
        let copy = (line.0, copy_chat_message(&line.1));
        r.push(copy);
        assert(r@ =~= chat.chat_history@.take(i + 1));
    }
    assert(chat.chat_history@.take(n as int) =~= chat.chat_history@);
    r
}

/// Sends the chat history to every stream client. `chat` holds the chats that
/// changed this tick; nothing is sent unless there is exactly one.
pub fn send_chat_to_all_connections(chat: &Vec<Chat>, connections: &mut Vec<TcpConnection>)
    ensures
        final(connections)@.len() == old(connections)@.len(),
        chat@.len() != 1 ==> final(connections)@ == old(connections)@,
        chat@.len() == 1 ==> forall|j: int|
            0 <= j < old(connections)@.len() ==> {
                let before = #[trigger] old(connections)@[j]@;
                let after = final(connections)@[j]@;
                &&& after.stream == before.stream
                &&& after.input == before.input
                &&& after.lobby_id == before.lobby_id
                &&& after.output.len() == before.output.len() + 1
                &&& after.output.drop_last() == before.output
                &&& is_chat_update(after.output.last(), chat@[0].chat_history@)
            },
{
    if chat.len() == 1 {
        let n = connections.len();
        for j in 0..n
            invariant
                n == connections@.len(),
                chat@.len() == 1,
                old(connections)@.len() == n,
                forall|k: int| j <= k < n ==> connections@[k] == old(connections)@[k],
                forall|k: int|
                    0 <= k < j ==> {
                        let before = #[trigger] old(connections)@[k]@;
                        let after = connections@[k]@;
                        &&& after.stream == before.stream
                        &&& after.input == before.input
                        &&& after.lobby_id == before.lobby_id
                        &&& after.output.len() == before.output.len() + 1
                        &&& after.output.drop_last() == before.output
                        &&& is_chat_update(after.output.last(), chat@[0].chat_history@)
                    },
        {
            let messages = history_lines(&chat[0]);
            connections[j].add_message(NetworkMessage(STcpType::Chat { messages }));
        }
    }
}

/// A chat never holds more than `CHAT_HISTORY_LEN` lines once a line was offered to it.
pub proof fn lemma_history_bounded(history: Seq<(Id, ChatMessage)>, line: (Id, ChatMessage))
    ensures
        history_after(history, line).len() <= CHAT_HISTORY_LEN,
{
}

/// Every line of a history fits in the chat, if it did before a line was offered.
pub proof fn lemma_history_lines_fit(history: Seq<(Id, ChatMessage)>, line: (Id, ChatMessage))
    requires
        forall|i: int| 0 <= i < history.len() ==> fits_in_chat(#[trigger] history[i].1),
    ensures
        forall|i: int|
            0 <= i < history_after(history, line).len() ==> fits_in_chat(
                #[trigger] history_after(history, line)[i].1,
            ),
{
    let kept = if history.len() >= CHAT_HISTORY_LEN {
        history.skip(history.len() - (CHAT_HISTORY_LEN - 1))
    } else {
        history
    };
    assert forall|i: int| 0 <= i < kept.len() implies fits_in_chat(#[trigger] kept[i].1) by {
        if history.len() >= CHAT_HISTORY_LEN {
            assert(kept[i] == history[i + history.len() - (CHAT_HISTORY_LEN - 1)]);
        }
    }
}

/// Offering a line keeps the newest lines of the history, in order, making
/// room for one more: a line of at most `MAX_CHAT_MESSAGE_LENGTH` bytes becomes
/// the last entry, whoever wrote it or the line before it; a longer line is not
/// entered at all.
pub proof fn lemma_history_appends_line(history: Seq<(Id, ChatMessage)>, line: (Id, ChatMessage))
    ensures
        ({
            let after = history_after(history, line);
            let kept = if history.len() < CHAT_HISTORY_LEN {
                history.len() as int
            } else {
                CHAT_HISTORY_LEN - 1
            };
            &&& message_len(line.1) <= MAX_CHAT_MESSAGE_LENGTH ==> after.len() == kept + 1
                && after[kept] == line
            &&& message_len(line.1) > MAX_CHAT_MESSAGE_LENGTH ==> after.len() == kept
            &&& forall|i: int| 0 <= i < kept ==> #[trigger] after[i] == history[history.len() - kept + i]
        }),
{
}

} // verus!
