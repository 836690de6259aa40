//! Chat messages between clients and the server, and the parsing of commands and mentions.

use vstd::prelude::*;
use crate::text::{chars_of, word_bounds, words_from};

verus! {

/// Maximal length of one chat message, in UTF-8 bytes.
pub const CHAT_MESSAGE_MAX_LENGTH: usize = 512;

/// Prefix character of chat commands (such as `/help`).
pub const CHAT_COMMAND_PREFIX: char = '/';

/// Prefix character of mentions (such as `@Player`).
pub const CHAT_MENTION_PREFIX: char = '@';

/// A chat line a client sends to the server.
#[derive(Debug, Clone)]
pub struct ClientChat {
    pub text: String,
}

/// A client asks for the chat history (after connecting, say).
#[derive(Debug, Clone, Copy)]
pub struct ClientChatHistoryRequest;

/// One chat line broadcast by the server.
#[derive(Debug, Clone)]
pub struct ServerChat {
    pub sender_name: String,
    pub sender_steam_id: Option<u64>,
    pub text: String,
    /// Unix time in seconds, set when the server received the line.
    pub timestamp: Option<u64>,
}

/// The content of a [`ServerChat`].
pub struct ChatLine {
    pub sender_name: Seq<char>,
    pub sender_steam_id: Option<u64>,
    pub text: Seq<char>,
    pub timestamp: Option<u64>,
}

impl View for ServerChat {
    type V = ChatLine;

    open spec fn view(&self) -> ChatLine {
        ChatLine {
            sender_name: self.sender_name@,
            sender_steam_id: self.sender_steam_id,
            text: self.text@,
            timestamp: self.timestamp,
        }
    }
}

impl ServerChat {
    /// A copy of the line.
    pub fn duplicate(&self) -> (r: ServerChat)
        ensures
            r@ == self@,
    {
        ServerChat {
            sender_name: self.sender_name.clone(),
            sender_steam_id: self.sender_steam_id,
            text: self.text.clone(),
            timestamp: self.timestamp,
        }
    }
}

/// The answer to a [`ClientChatHistoryRequest`].
#[derive(Debug, Clone)]
pub struct ServerChatHistoryResponse {
    pub history: Vec<ServerChat>,
}

/// What was wrong with a chat line.
#[derive(Debug, Clone, Copy, PartialEq, Eq, Structural)]
pub enum ChatErrorType {
    MessageTooLong,
    EmptyMessage,
    UnknownCommand,
}

/// The refusal sent back to the client whose chat line was invalid.
#[derive(Debug, Clone)]
pub struct ServerChatError {
    pub error_type: ChatErrorType,
    pub message: String,
}

/// A server command offered for autocompletion.
#[derive(Debug, Clone)]
pub struct ChatCommandInfo {
    pub command: String,
    pub description: String,
    pub usage: String,
}

/// A player offered for `@mention` autocompletion.
#[derive(Debug, Clone)]
pub struct ChatPlayerInfo {
    pub name: String,
    pub steam_id: Option<u64>,
}

/// The autocompletion data the server sends to all clients.
#[derive(Debug, Clone)]
pub struct ServerChatAutocomplete {
    pub commands: Vec<ChatCommandInfo>,
    pub players: Vec<ChatPlayerInfo>,
}

/// The command named by a chat line: the first word after a leading `/`.
pub open spec fn command_spec(text: Seq<char>) -> Option<Seq<char>> {
    if text.len() > 0 && text[0] == CHAT_COMMAND_PREFIX && words_from(text, 1).len() > 0 {
        Some(words_from(text, 1)[0])
    } else {
        None
    }
}

/// The command name of a chat line (`/help` gives `help`), if it is a command.
pub fn extract_command(text: &str) -> (r: Option<&str>)
    ensures
        match r {
            Some(c) => command_spec(text@) == Some(c@),
            None => command_spec(text@) is None,
        },
{
    let v = chars_of(text);
    if v.len() == 0 || v[0] != CHAT_COMMAND_PREFIX {
        return None;
    }
    let bounds = word_bounds(v.as_slice(), 1);
    if bounds.len() == 0 {
        return None;
    }
    let (a, b) = bounds[0];
    proof {
        assert(bounds@.map_values(|p: (usize, usize)| v@.subrange(p.0 as int, p.1 as int))[0]
            == v@.subrange(a as int, b as int));
    }
    Some(text.substring_char(a, b))
}

/// The names mentioned in `ws`: the words that start with `@`, without it, when
/// something follows it.
pub open spec fn mentions_in(ws: Seq<Seq<char>>) -> Seq<Seq<char>>
    decreases ws.len(),
{
    if ws.len() == 0 {
        seq![]
    } else {
        let w = ws.last();
        let rest = mentions_in(ws.drop_last());
        if w.len() > 1 && w[0] == CHAT_MENTION_PREFIX {
            rest.push(w.drop_first())
        } else {
            rest
        }
    }
}

/// The names mentioned in a chat line (`@Name` gives `Name`), in order.
pub fn extract_mentions(text: &str) -> (r: Vec<&str>)
    ensures
        r@.map_values(|m: &str| m@) == mentions_in(words_from(text@, 0)),
{
    let v = chars_of(text);
    let bounds = word_bounds(v.as_slice(), 0);
    let ghost ws = bounds@.map_values(|p: (usize, usize)| v@.subrange(p.0 as int, p.1 as int));
    let mut out: Vec<&str> = Vec::new();
    let mut k: usize = 0;
    while k < bounds.len()
        invariant
            k <= bounds@.len(),
            v@ == text@,
            ws == bounds@.map_values(|p: (usize, usize)| v@.subrange(p.0 as int, p.1 as int)),
            forall|q: int| 0 <= q < bounds@.len() ==> (#[trigger] bounds@[q]).0 <= bounds@[q].1 <= v@.len(),
            out@.map_values(|m: &str| m@) == mentions_in(ws.take(k as int)),
        decreases bounds@.len() - k,
    {
        let (a, b) = bounds[k];
        let ghost w = ws[k as int];
        proof {
            assert(w == v@.subrange(a as int, b as int));
            assert(ws.take(k + 1).drop_last() =~= ws.take(k as int));
            assert(ws.take(k + 1).last() == w);
        }
        if b > a && b - a > 1 && v[a] == CHAT_MENTION_PREFIX {
            let m = text.substring_char(a + 1, b);
            let ghost before = out@.map_values(|m: &str| m@);
            out.push(m);
            proof {
                assert(m@ =~= w.drop_first());
                assert(out@.map_values(|m: &str| m@) =~= before.push(m@));
            }
        }
        k += 1;
    }
    proof {
        assert(ws.take(k as int) =~= ws);
    }
    out
}

} // verus!
