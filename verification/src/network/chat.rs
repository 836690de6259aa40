//! The server side of the chat: checking incoming lines, keeping the history, choosing
//! the history a client gets, and the player list for autocompletion.

use vstd::prelude::*;
use crate::network::auth::AuthenticatedPlayer;
use crate::protocols::chat::{
    command_spec, ChatErrorType, ChatLine, ChatPlayerInfo, ServerChat, ServerChatError,
    CHAT_MENTION_PREFIX, CHAT_MESSAGE_MAX_LENGTH,
};
use crate::settings::json::str_eq;
use crate::text::{
    chars_of, contains_chars, contains_seq, decimal, to_owned_string, trim_bounds, trim_spec,
    usize_to_decimal,
};

verus! {

/// The most chat lines the server keeps.
pub const CHAT_HISTORY_SIZE: usize = 1024;

/// The most chat lines a client gets when it asks for the history.
pub const CHAT_CLIENT_HISTORY_SIZE: usize = 128;

/// The chat lines the server keeps, oldest first.
pub struct ChatHistory(pub Vec<ServerChat>);

/// The lines of a history after `line` arrived: appended, and the oldest dropped when
/// there are more than [`CHAT_HISTORY_SIZE`].
pub open spec fn history_after(h: Seq<ChatLine>, line: ChatLine) -> Seq<ChatLine> {
    if h.len() + 1 > CHAT_HISTORY_SIZE {
        h.push(line).drop_first()
    } else {
        h.push(line)
    }
}

/// A history that holds at most [`CHAT_HISTORY_SIZE`] lines still does after a line
/// arrives; the new line is the last one, and the lines before it are the latest of
/// the old ones, in order.
pub proof fn history_stays_capped(h: Seq<ChatLine>, line: ChatLine)
    requires
        h.len() <= CHAT_HISTORY_SIZE,
    ensures
        history_after(h, line).len() <= CHAT_HISTORY_SIZE,
        history_after(h, line).last() == line,
        history_after(h, line).drop_last() == h.skip(h.len() + 1 - history_after(h, line).len()),
{
    let r = history_after(h, line);
    if h.len() + 1 > CHAT_HISTORY_SIZE {
        assert(r.drop_last() =~= h.skip(1));
    } else {
        assert(r.drop_last() =~= h.skip(0));
    }
}

/// The views of chat lines.
pub open spec fn lines_view(v: Seq<ServerChat>) -> Seq<ChatLine> {
    v.map_values(|m: ServerChat| m@)
}

impl ChatHistory {
    /// An empty history.
    pub fn new() -> (r: ChatHistory)
        ensures
            r.0@.len() == 0,
    {
        ChatHistory(Vec::new())
    }

    /// Appends `line`, dropping the oldest line when there are more than
    /// [`CHAT_HISTORY_SIZE`].
    pub fn push(&mut self, line: ServerChat)
        ensures
            lines_view(final(self).0@) == history_after(lines_view(old(self).0@), line@),
    {
        let ghost before = lines_view(self.0@);
        let ghost l = line@;
        self.0.push(line);
        proof {
            assert(lines_view(self.0@) =~= before.push(l));
        }
        if self.0.len() > CHAT_HISTORY_SIZE {
            let ghost pushed = self.0@;
            self.0.remove(0);
            proof {
                assert(self.0@ =~= pushed.drop_first());
                assert(lines_view(self.0@) =~= before.push(l).drop_first());
            }
        }
    }
}

/// The message for an empty chat line.
pub open spec fn empty_message_text() -> Seq<char> {
    "Nachricht darf nicht leer sein."@
}

/// The message for a chat line of `len` characters.
pub open spec fn too_long_text(len: nat) -> Seq<char> {
    "Nachricht zu lang ("@ + decimal(len) + " / "@ + decimal(CHAT_MESSAGE_MAX_LENGTH as nat) + " Zeichen)."@
}

/// The message for a chat command.
pub open spec fn command_text() -> Seq<char> {
    "Chat-Commands sind noch nicht implementiert."@
}

/// What a chat line comes to: its trimmed text when it may be broadcast, or the kind and
/// message of the refusal: empty after trimming, longer than
/// [`CHAT_MESSAGE_MAX_LENGTH`] characters, or a command.
pub open spec fn chat_verdict(text: Seq<char>) -> Result<Seq<char>, (ChatErrorType, Seq<char>)> {
    let t = trim_spec(text);
    if t.len() == 0 {
        Err((ChatErrorType::EmptyMessage, empty_message_text()))
    } else if t.len() > CHAT_MESSAGE_MAX_LENGTH {
        Err((ChatErrorType::MessageTooLong, too_long_text(t.len())))
    } else if command_spec(t) is Some {
        Err((ChatErrorType::UnknownCommand, command_text()))
    } else {
        Ok(t)
    }
}

/// A chat line is broadcast, trimmed, exactly when its trimmed text is not empty, has
/// at most [`CHAT_MESSAGE_MAX_LENGTH`] characters, and is no command; a trimmed text
/// that does not begin with `/` is no command, so such a line is always broadcast.
pub proof fn plain_chat_lines_are_accepted(text: Seq<char>)
    ensures
        ({
            let t = trim_spec(text);
            t.len() > 0 && t.len() <= CHAT_MESSAGE_MAX_LENGTH && t[0] != '/'
        }) ==> chat_verdict(text) == Ok::<Seq<char>, (ChatErrorType, Seq<char>)>(trim_spec(text)),
        chat_verdict(text) is Ok ==> ({
            let t = trim_spec(text);
            &&& chat_verdict(text) == Ok::<Seq<char>, (ChatErrorType, Seq<char>)>(t)
            &&& t.len() > 0
            &&& t.len() <= CHAT_MESSAGE_MAX_LENGTH
        }),
        trim_spec(text).len() == 0 ==> (chat_verdict(text) matches Err((k, _)) && k == ChatErrorType::EmptyMessage),
        trim_spec(text).len() > CHAT_MESSAGE_MAX_LENGTH ==> (chat_verdict(text) matches Err((k, _))
            && k == ChatErrorType::MessageTooLong),
{
}

/// Checks a chat line: the trimmed text, or the refusal for its sender.
pub fn check_chat_text(text: &str) -> (r: Result<String, ServerChatError>)
    ensures
        match chat_verdict(text@) {
            Ok(t) => r matches Ok(s) && s@ == t,
            Err((kind, msg)) => r matches Err(e) && e.error_type == kind && e.message@ == msg,
        },
{
    let v = chars_of(text);
    let (a, b) = trim_bounds(v.as_slice());
    let ghost t = trim_spec(text@);
    if a == b {
        return Err(ServerChatError {
            error_type: ChatErrorType::EmptyMessage,
            message: to_owned_string("Nachricht darf nicht leer sein."),
        });
    }
    let len = b - a;
    if len > CHAT_MESSAGE_MAX_LENGTH {
        let mut m = to_owned_string("Nachricht zu lang (");
        let d = usize_to_decimal(len);
        m.append(d.as_str());
        m.append(" / ");
        let limit = usize_to_decimal(CHAT_MESSAGE_MAX_LENGTH);
        m.append(limit.as_str());
        m.append(" Zeichen).");
        return Err(ServerChatError { error_type: ChatErrorType::MessageTooLong, message: m });
    }
    let trimmed = text.substring_char(a, b);
    if crate::protocols::chat::extract_command(trimmed).is_some() {
        return Err(ServerChatError {
            error_type: ChatErrorType::UnknownCommand,
            message: to_owned_string("Chat-Commands sind noch nicht implementiert."),
        });
    }
    Ok(to_owned_string(trimmed))
}

/// Handles a chat line from a client: a refusal for the sender, or the line to broadcast,
/// which also goes into the history. The sender's name and Steam id come from its
/// registry entry; without one the name is `fallback_name`.
pub fn handle_client_chat(
    text: &str,
    sender: Option<&AuthenticatedPlayer>,
    fallback_name: String,
    timestamp: Option<u64>,
    history: &mut ChatHistory,
) -> (r: Result<ServerChat, ServerChatError>)
    ensures
        match chat_verdict(text@) {
            Ok(t) => r matches Ok(line) && line@ == (ChatLine {
                sender_name: match sender {
                    Some(p) => p.display_name@,
                    None => fallback_name@,
                },
                sender_steam_id: match sender {
                    Some(p) => p.steam_id,
                    None => None,
                },
                text: t,
                timestamp,
            }) && lines_view(final(history).0@) == history_after(lines_view(old(history).0@), line@),
            Err((kind, msg)) => r matches Err(e) && e.error_type == kind && e.message@ == msg
                && final(history).0@ == old(history).0@,
        },
{
    let trimmed = match check_chat_text(text) {
        Ok(t) => t,
        Err(e) => {
            return Err(e);
        },
    };
    let (sender_name, sender_steam_id) = match sender {
        Some(p) => (p.display_name.clone(), p.steam_id),
        None => (fallback_name, None),
    };
    let line = ServerChat { sender_name, sender_steam_id, text: trimmed, timestamp };
    let copy = line.duplicate();
    history.push(copy);
    Ok(line)
}

/// `a` sorts before or with `b` by timestamp (no timestamp first).
pub open spec fn ts_le(a: Option<u64>, b: Option<u64>) -> bool {
    match (a, b) {
        (None, _) => true,
        (Some(_), None) => false,
        (Some(x), Some(y)) => x <= y,
    }
}

fn ts_le_exec(a: Option<u64>, b: Option<u64>) -> (r: bool)
    ensures
        r == ts_le(a, b),
{
    match (a, b) {
        (None, _) => true,
        (Some(_), None) => false,
        (Some(x), Some(y)) => x <= y,
    }
}

/// `s` (sorted by timestamp) with `x` inserted after every line whose timestamp is not later.
pub open spec fn insert_by_time(s: Seq<ChatLine>, x: ChatLine) -> Seq<ChatLine>
    decreases s.len(),
{
    if s.len() == 0 {
        seq![x]
    } else if ts_le(s.last().timestamp, x.timestamp) {
        s.push(x)
    } else {
        insert_by_time(s.drop_last(), x).push(s.last())
    }
}

/// `s` sorted by timestamp, lines with equal timestamps in their order in `s` (a stable sort).
pub open spec fn sort_by_time(s: Seq<ChatLine>) -> Seq<ChatLine>
    decreases s.len(),
{
    if s.len() == 0 {
        seq![]
    } else {
        insert_by_time(sort_by_time(s.drop_last()), s.last())
    }
}

proof fn lemma_insert_by_time_tail(s: Seq<ChatLine>, x: ChatLine, j: int)
    requires
        0 <= j <= s.len(),
        forall|k: int| j <= k < s.len() ==> !ts_le(#[trigger] s[k].timestamp, x.timestamp),
    ensures
        insert_by_time(s, x) == insert_by_time(s.subrange(0, j), x) + s.subrange(j, s.len() as int),
    decreases s.len() - j,
{
    if j == s.len() {
        assert(s.subrange(0, j) =~= s);
        assert(insert_by_time(s, x) + s.subrange(j, s.len() as int) =~= insert_by_time(s, x));
    } else {
        let t = s.drop_last();
        assert forall|k: int| j <= k < t.len() implies !ts_le(#[trigger] t[k].timestamp, x.timestamp) by {
            assert(t[k] == s[k]);
        }
        lemma_insert_by_time_tail(t, x, j);
        assert(t.subrange(0, j) =~= s.subrange(0, j));
        assert(t.subrange(j, t.len() as int).push(s.last()) =~= s.subrange(j, s.len() as int));
        assert((insert_by_time(s.subrange(0, j), x) + t.subrange(j, t.len() as int)).push(s.last())
            =~= insert_by_time(s.subrange(0, j), x) + s.subrange(j, s.len() as int));
    }
}

/// Inserts `x` into `v` (sorted by timestamp) as [`insert_by_time`] does.
fn insert_line_by_time(v: &mut Vec<ServerChat>, x: ServerChat)
    ensures
        lines_view(final(v)@) == insert_by_time(lines_view(old(v)@), x@),
{
    let ghost s = lines_view(v@);
    let mut p: usize = v.len();
    while p > 0 && !ts_le_exec(v[p - 1].timestamp, x.timestamp)
        invariant
            p <= v@.len(),
            s == lines_view(v@),
            forall|k: int| p <= k < s.len() ==> !ts_le(#[trigger] s[k].timestamp, x@.timestamp),
        decreases p,
    {
        p -= 1;
    }
    proof {
        lemma_insert_by_time_tail(s, x@, p as int);
        let pre = s.subrange(0, p as int);
        if p > 0 {
            assert(pre.last() == s[p - 1]);
            assert(pre.drop_last() =~= s.subrange(0, p - 1));
        }
        assert(insert_by_time(pre, x@) == pre.push(x@));
    }
    let ghost xv = x@;
    v.insert(p, x);
    proof {
        assert(lines_view(v@) =~= s.subrange(0, p as int).push(xv) + s.subrange(p as int, s.len() as int));
    }
}

/// Sorts the lines by timestamp as [`sort_by_time`] does.
fn sort_lines_by_time(v: Vec<ServerChat>) -> (r: Vec<ServerChat>)
    ensures
        lines_view(r@) == sort_by_time(lines_view(v@)),
{
    let mut out: Vec<ServerChat> = Vec::new();
    let mut i: usize = 0;
    let ghost s = lines_view(v@);
    while i < v.len()
        invariant
            i <= v@.len(),
            s == lines_view(v@),
            lines_view(out@) == sort_by_time(s.take(i as int)),
        decreases v@.len() - i,
    {
        proof {
            assert(s.take(i + 1).drop_last() =~= s.take(i as int));
            assert(s.take(i + 1).last() == s[i as int]);
        }
        let x = v[i].duplicate();
        insert_line_by_time(&mut out, x);
        i += 1;
    }
    proof {
        assert(s.take(i as int) =~= s);
    }
    out
}

/// Two lines count as the same when they have the same timestamp and sender name.
pub open spec fn same_line(a: ChatLine, b: ChatLine) -> bool {
    a.timestamp == b.timestamp && a.sender_name == b.sender_name
}

/// `s` without each line that counts as the same as the line kept before it.
pub open spec fn dedup_lines(s: Seq<ChatLine>) -> Seq<ChatLine>
    decreases s.len(),
{
    if s.len() == 0 {
        seq![]
    } else {
        let d = dedup_lines(s.drop_last());
        if d.len() > 0 && same_line(s.last(), d.last()) {
            d
        } else {
            d.push(s.last())
        }
    }
}

/// A line's text holds `mention`.
pub open spec fn mentions(mention: Seq<char>) -> spec_fn(ChatLine) -> bool {
    |m: ChatLine| contains_seq(m.text, mention)
}

/// A line's text does not hold `mention`.
pub open spec fn mentions_not(mention: Seq<char>) -> spec_fn(ChatLine) -> bool {
    |m: ChatLine| !contains_seq(m.text, mention)
}

/// The lines that mention `mention`, in order.
pub open spec fn mentioning(h: Seq<ChatLine>, mention: Seq<char>) -> Seq<ChatLine> {
    h.filter(mentions(mention))
}

/// The lines that do not mention `mention`, in order.
pub open spec fn not_mentioning(h: Seq<ChatLine>, mention: Seq<char>) -> Seq<ChatLine> {
    h.filter(mentions_not(mention))
}

/// The history a player named `own_name` gets: every line that mentions `@own_name`,
/// and as many of the latest other lines as fit in [`CHAT_CLIENT_HISTORY_SIZE`] with
/// them; sorted by timestamp (stably), without repeated lines.
pub open spec fn relevant_history(h: Seq<ChatLine>, own_name: Seq<char>) -> Seq<ChatLine> {
    let mention = seq![CHAT_MENTION_PREFIX] + own_name;
    let mentioned = mentioning(h, mention);
    let others = not_mentioning(h, mention);
    let room: int = if mentioned.len() < CHAT_CLIENT_HISTORY_SIZE { CHAT_CLIENT_HISTORY_SIZE - mentioned.len() } else { 0 };
    let keep: int = if others.len() < room { others.len() as int } else { room };
    let latest = others.subrange(others.len() - keep, others.len() as int);
    dedup_lines(sort_by_time(latest + sort_by_time(mentioned)))
}

/// `a` was sent before `b`: both have timestamps, and `a`'s is earlier.
pub open spec fn sent_before(a: ChatLine, b: ChatLine) -> bool {
    a.timestamp is Some && b.timestamp is Some && a.timestamp->0 < b.timestamp->0
}

/// The lines are in the order they were sent, each with its own timestamp.
pub open spec fn in_send_order(h: Seq<ChatLine>) -> bool {
    forall|i: int, j: int| 0 <= i < j < h.len() ==> sent_before(#[trigger] h[i], #[trigger] h[j])
}

/// Lines with the same timestamp are the same line.
pub open spec fn ts_identifies(s: Seq<ChatLine>) -> bool {
    forall|a: int, b: int| 0 <= a < s.len() && 0 <= b < s.len() && (#[trigger] s[a]).timestamp == (#[trigger] s[b]).timestamp
        ==> s[a] == s[b]
}

proof fn lemma_insert_contains(s: Seq<ChatLine>, x: ChatLine)
    ensures
        forall|y: ChatLine| #[trigger] insert_by_time(s, x).contains(y) <==> (s.contains(y) || y == x),
    decreases s.len(),
{
    if s.len() == 0 {
        assert(insert_by_time(s, x) =~= seq![x]);
        assert forall|y: ChatLine| #[trigger] insert_by_time(s, x).contains(y) <==> (s.contains(y) || y == x) by {
            if insert_by_time(s, x).contains(y) {
                assert(insert_by_time(s, x)[0] == x);
            }
            if y == x {
                assert(insert_by_time(s, x)[0] == x);
            }
        }
    } else if ts_le(s.last().timestamp, x.timestamp) {
        let r = s.push(x);
        assert forall|y: ChatLine| #[trigger] r.contains(y) <==> (s.contains(y) || y == x) by {
            if r.contains(y) {
                let k = choose|k: int| 0 <= k < r.len() && r[k] == y;
                if k < s.len() {
                    assert(s[k] == y);
                }
            }
            if s.contains(y) {
                let k = choose|k: int| 0 <= k < s.len() && s[k] == y;
                assert(r[k] == y);
            }
            if y == x {
                assert(r[s.len() as int] == x);
            }
        }
    } else {
        let t = s.drop_last();
        lemma_insert_contains(t, x);
        let r = insert_by_time(t, x).push(s.last());
        assert forall|y: ChatLine| #[trigger] r.contains(y) <==> (s.contains(y) || y == x) by {
            let it = insert_by_time(t, x);
            if r.contains(y) {
                let k = choose|k: int| 0 <= k < r.len() && r[k] == y;
                if k < it.len() {
                    assert(it[k] == y);
                    assert(it.contains(y));
                    if t.contains(y) {
                        let q = choose|q: int| 0 <= q < t.len() && t[q] == y;
                        assert(s[q] == y);
                    }
                } else {
                    assert(s[s.len() - 1] == y);
                }
            }
            if s.contains(y) {
                let k = choose|k: int| 0 <= k < s.len() && s[k] == y;
                if k < t.len() {
                    assert(t[k] == y);
                    assert(it.contains(y));
                    let q = choose|q: int| 0 <= q < it.len() && it[q] == y;
                    assert(r[q] == y);
                } else {
                    assert(r[it.len() as int] == y);
                }
            }
            if y == x {
                assert(it.contains(x));
                let q = choose|q: int| 0 <= q < it.len() && it[q] == x;
                assert(r[q] == x);
            }
        }
    }
}

proof fn lemma_sort_contains(s: Seq<ChatLine>)
    ensures
        forall|y: ChatLine| #[trigger] sort_by_time(s).contains(y) <==> s.contains(y),
    decreases s.len(),
{
    if s.len() > 0 {
        let t = s.drop_last();
        lemma_sort_contains(t);
        lemma_insert_contains(sort_by_time(t), s.last());
        assert forall|y: ChatLine| #[trigger] sort_by_time(s).contains(y) <==> s.contains(y) by {
            if t.contains(y) {
                let q = choose|q: int| 0 <= q < t.len() && t[q] == y;
                assert(s[q] == y);
            }
            if s.contains(y) {
                let q = choose|q: int| 0 <= q < s.len() && s[q] == y;
                if q < t.len() {
                    assert(t[q] == y);
                }
            }
            assert(s[s.len() - 1] == s.last());
        }
    } else {
        assert(sort_by_time(s) =~= Seq::<ChatLine>::empty());
    }
}

proof fn lemma_dedup_contains(s: Seq<ChatLine>)
    ensures
        forall|y: ChatLine| #[trigger] dedup_lines(s).contains(y) ==> s.contains(y),
        ts_identifies(s) ==> forall|y: ChatLine| #[trigger] s.contains(y) ==> dedup_lines(s).contains(y),
    decreases s.len(),
{
    if s.len() > 0 {
        let t = s.drop_last();
        lemma_dedup_contains(t);
        let d = dedup_lines(t);
        assert forall|y: ChatLine| #[trigger] dedup_lines(s).contains(y) implies s.contains(y) by {
            if d.contains(y) {
                let q = choose|q: int| 0 <= q < t.len() && t[q] == y;
                assert(s[q] == y);
            } else {
                assert(d.push(s.last()).contains(y));
                let q = choose|q: int| 0 <= q < d.len() + 1 && d.push(s.last())[q] == y;
                assert(s[s.len() - 1] == y);
            }
        }
        if ts_identifies(s) {
            assert(ts_identifies(t)) by {
                assert forall|a: int, b: int| 0 <= a < t.len() && 0 <= b < t.len() && (#[trigger] t[a]).timestamp == (#[trigger] t[b]).timestamp
                    implies t[a] == t[b] by {
                    assert(s[a] == t[a] && s[b] == t[b]);
                }
            }
            assert forall|y: ChatLine| #[trigger] s.contains(y) implies dedup_lines(s).contains(y) by {
                let q = choose|q: int| 0 <= q < s.len() && s[q] == y;
                if q < t.len() {
                    assert(t[q] == y);
                    assert(t.contains(y));
                    assert(d.contains(y));
                    let k = choose|k: int| 0 <= k < d.len() && d[k] == y;
                    if !(d.len() > 0 && same_line(s.last(), d.last())) {
                        assert(d.push(s.last())[k] == y);
                    }
                } else {
                    if d.len() > 0 && same_line(s.last(), d.last()) {
                        assert(d.contains(d.last()));
                        assert(t.contains(d.last()));
                        let a = choose|a: int| 0 <= a < t.len() && t[a] == d.last();
                        assert(s[a] == d.last());
                        assert(s[s.len() - 1] == s.last());
                        assert(s[a] == s[s.len() - 1]);
                        assert(d[d.len() - 1] == y);
                    } else {
                        assert(d.push(s.last())[d.len() as int] == y);
                    }
                }
            }
        }
    } else {
        assert(dedup_lines(s) =~= Seq::<ChatLine>::empty());
    }
}

proof fn lemma_filter_in_order(h: Seq<ChatLine>, p: spec_fn(ChatLine) -> bool)
    requires
        in_send_order(h),
    ensures
        in_send_order(h.filter(p)),
        forall|y: ChatLine| #[trigger] h.filter(p).contains(y) ==> h.contains(y),
    decreases h.len(),
{
    assert forall|y: ChatLine| #[trigger] h.filter(p).contains(y) implies h.contains(y) by {
        h.lemma_filter_contains_rev(p, y);
    }
    if h.len() > 0 {
        let t = h.drop_last();
        assert(in_send_order(t)) by {
            assert forall|i: int, j: int| 0 <= i < j < t.len() implies sent_before(#[trigger] t[i], #[trigger] t[j]) by {
                assert(t[i] == h[i] && t[j] == h[j]);
            }
        }
        lemma_filter_in_order(t, p);
        assert(t.push(h.last()) =~= h);
        t.lemma_filter_push(h.last(), p);
        let ft = t.filter(p);
        if p(h.last()) {
            let f = ft.push(h.last());
            assert forall|i: int, j: int| 0 <= i < j < f.len() implies sent_before(#[trigger] f[i], #[trigger] f[j]) by {
                if j == ft.len() {
                    assert(ft.contains(ft[i]));
                    assert(t.contains(ft[i]));
                    let q = choose|q: int| 0 <= q < t.len() && t[q] == ft[i];
                    assert(h[q] == f[i]);
                    assert(h[h.len() - 1] == f[j]);
                } else {
                    assert(f[i] == ft[i] && f[j] == ft[j]);
                }
            }
        }
    }
}

/// Lines of a history in send order that have the same timestamp are the same line.
proof fn lemma_subset_identifies(s: Seq<ChatLine>, h: Seq<ChatLine>)
    requires
        in_send_order(h),
        forall|k: int| 0 <= k < s.len() ==> h.contains(#[trigger] s[k]),
    ensures
        ts_identifies(s),
{
    assert forall|a: int, b: int| 0 <= a < s.len() && 0 <= b < s.len() && (#[trigger] s[a]).timestamp == (#[trigger] s[b]).timestamp
        implies s[a] == s[b] by {
        assert(h.contains(s[a]) && h.contains(s[b]));
        let x = choose|x: int| 0 <= x < h.len() && h[x] == s[a];
        let y = choose|y: int| 0 <= y < h.len() && h[y] == s[b];
        if x < y {
            assert(sent_before(h[x], h[y]));
        } else if y < x {
            assert(sent_before(h[y], h[x]));
        }
    }
}

/// For a history in send order: the result holds exactly the lines that go into it,
/// the latest other lines and the mentioning ones.
proof fn lemma_relevant_contains(h: Seq<ChatLine>, own_name: Seq<char>)
    requires
        in_send_order(h),
    ensures
        ({
            let mention = seq![CHAT_MENTION_PREFIX] + own_name;
            let mentioned = mentioning(h, mention);
            let others = not_mentioning(h, mention);
            let room: int = if mentioned.len() < CHAT_CLIENT_HISTORY_SIZE { CHAT_CLIENT_HISTORY_SIZE - mentioned.len() } else { 0 };
            let keep: int = if others.len() < room { others.len() as int } else { room };
            let latest = others.subrange(others.len() - keep, others.len() as int);
            &&& in_send_order(others)
            &&& in_send_order(mentioned)
            &&& forall|y: ChatLine| #[trigger] relevant_history(h, own_name).contains(y) <==> (latest.contains(y) || mentioned.contains(y))
        }),
{
    let mention = seq![CHAT_MENTION_PREFIX] + own_name;
    let mentioned = mentioning(h, mention);
    let others = not_mentioning(h, mention);
    let room: int = if mentioned.len() < CHAT_CLIENT_HISTORY_SIZE { CHAT_CLIENT_HISTORY_SIZE - mentioned.len() } else { 0 };
    let keep: int = if others.len() < room { others.len() as int } else { room };
    let latest = others.subrange(others.len() - keep, others.len() as int);
    lemma_filter_in_order(h, mentions(mention));
    lemma_filter_in_order(h, mentions_not(mention));
    let sm = sort_by_time(mentioned);
    let c = latest + sm;
    lemma_sort_contains(mentioned);
    lemma_sort_contains(c);
    assert forall|y: ChatLine| #[trigger] c.contains(y) <==> (latest.contains(y) || mentioned.contains(y)) by {
        if c.contains(y) {
            let k = choose|k: int| 0 <= k < c.len() && c[k] == y;
            if k < latest.len() {
                assert(latest[k] == y);
            } else {
                assert(sm[k - latest.len()] == y);
                assert(sm.contains(y));
            }
        }
        if latest.contains(y) {
            let k = choose|k: int| 0 <= k < latest.len() && latest[k] == y;
            assert(c[k] == y);
        }
        if mentioned.contains(y) {
            assert(sm.contains(y));
            let k = choose|k: int| 0 <= k < sm.len() && sm[k] == y;
            assert(c[latest.len() + k] == y);
        }
    }
    let sc = sort_by_time(c);
    assert forall|k: int| 0 <= k < sc.len() implies h.contains(#[trigger] sc[k]) by {
        assert(sc.contains(sc[k]));
        assert(c.contains(sc[k]));
        if latest.contains(sc[k]) {
            let q = choose|q: int| 0 <= q < latest.len() && latest[q] == sc[k];
            assert(others[others.len() - keep + q] == sc[k]);
            assert(others.contains(sc[k]));
        }
    }
    lemma_subset_identifies(sc, h);
    lemma_dedup_contains(sc);
    assert(relevant_history(h, own_name) == dedup_lines(sc));
    assert forall|y: ChatLine| #[trigger] relevant_history(h, own_name).contains(y) <==> (latest.contains(y) || mentioned.contains(y)) by {
        if dedup_lines(sc).contains(y) {
            assert(sc.contains(y));
            assert(c.contains(y));
        }
        if latest.contains(y) || mentioned.contains(y) {
            assert(c.contains(y));
            assert(sc.contains(y));
            assert(dedup_lines(sc).contains(y));
        }
    }
}

/// The history a joining player gets, for a history in send order: each line that
/// mentions the player is in it; of the other lines, a kept one is never older than
/// one left out (a line newer than a kept one is kept as well); and when the history has
/// no more lines than a client gets, every line is in it.
pub proof fn relevant_history_keeps_the_latest(h: Seq<ChatLine>, own_name: Seq<char>)
    requires
        in_send_order(h),
    ensures
        forall|i: int| 0 <= i < h.len() && contains_seq(h[i].text, seq![CHAT_MENTION_PREFIX] + own_name)
            ==> relevant_history(h, own_name).contains(#[trigger] h[i]),
        forall|i: int, j: int| 0 <= i < j < h.len()
            && !contains_seq(h[i].text, seq![CHAT_MENTION_PREFIX] + own_name)
            && !contains_seq(h[j].text, seq![CHAT_MENTION_PREFIX] + own_name)
            && relevant_history(h, own_name).contains(#[trigger] h[i])
            ==> relevant_history(h, own_name).contains(#[trigger] h[j]),
        h.len() <= CHAT_CLIENT_HISTORY_SIZE ==> forall|i: int| 0 <= i < h.len() ==> relevant_history(h, own_name).contains(#[trigger] h[i]),
{
    let mention = seq![CHAT_MENTION_PREFIX] + own_name;
    let pm = mentions(mention);
    let po = mentions_not(mention);
    let mentioned = mentioning(h, mention);
    let others = not_mentioning(h, mention);
    let room: int = if mentioned.len() < CHAT_CLIENT_HISTORY_SIZE { CHAT_CLIENT_HISTORY_SIZE - mentioned.len() } else { 0 };
    let keep: int = if others.len() < room { others.len() as int } else { room };
    let latest = others.subrange(others.len() - keep, others.len() as int);
    let r = relevant_history(h, own_name);
    lemma_relevant_contains(h, own_name);
    assert forall|i: int| 0 <= i < h.len() && contains_seq(h[i].text, mention) implies r.contains(#[trigger] h[i]) by {
        h.lemma_filter_contains(pm, i);
    }
    assert forall|i: int, j: int| 0 <= i < j < h.len()
        && !contains_seq(h[i].text, mention) && !contains_seq(h[j].text, mention)
        && r.contains(#[trigger] h[i]) implies r.contains(#[trigger] h[j]) by {
        if mentioned.contains(h[i]) {
            let k = choose|k: int| 0 <= k < mentioned.len() && mentioned[k] == h[i];
            h.lemma_filter_pred(pm, k);
        }
        assert(latest.contains(h[i]));
        let q = choose|q: int| 0 <= q < latest.len() && latest[q] == h[i];
        let a = others.len() - keep + q;
        assert(others[a] == h[i]);
        h.lemma_filter_contains(po, j);
        let b = choose|b: int| 0 <= b < others.len() && others[b] == h[j];
        assert(sent_before(h[i], h[j]));
        if b < a {
            assert(sent_before(others[b], others[a]));
        } else if b == a {
        }
        assert(latest[b - (others.len() - keep)] == h[j]);
    }
    if h.len() <= CHAT_CLIENT_HISTORY_SIZE {
        h.lemma_filter_len(pm);
        assert(mentioned.len() + others.len() <= h.len()) by {
            lemma_filter_split(h, mention);
        }
        assert(latest =~= others);
        assert forall|i: int| 0 <= i < h.len() implies r.contains(#[trigger] h[i]) by {
            if contains_seq(h[i].text, mention) {
                h.lemma_filter_contains(pm, i);
            } else {
                h.lemma_filter_contains(po, i);
            }
        }
    }
}

/// The lines that mention and those that do not together are as many as the history.
proof fn lemma_filter_split(h: Seq<ChatLine>, mention: Seq<char>)
    ensures
        mentioning(h, mention).len() + not_mentioning(h, mention).len() == h.len(),
    decreases h.len(),
{
    let pm = mentions(mention);
    let po = mentions_not(mention);
    if h.len() == 0 {
        reveal(Seq::filter);
    } else {
        let t = h.drop_last();
        lemma_filter_split(t, mention);
        assert(t.push(h.last()) =~= h);
        t.lemma_filter_push(h.last(), pm);
        t.lemma_filter_push(h.last(), po);
    }
}

/// The history to send to the player named `own_name` (see [`relevant_history`]).
pub fn filter_relevant_chat_history(history: &Vec<ServerChat>, own_name: &str) -> (r: Vec<ServerChat>)
    ensures
        lines_view(r@) == relevant_history(lines_view(history@), own_name@),
{
    let ghost h = lines_view(history@);
    let name_chars = chars_of(own_name);
    let mut mention: Vec<char> = Vec::new();
    mention.push(CHAT_MENTION_PREFIX);
    let mut q: usize = 0;
    while q < name_chars.len()
        invariant
            q <= name_chars@.len(),
            mention@ == seq![CHAT_MENTION_PREFIX] + name_chars@.take(q as int),
        decreases name_chars@.len() - q,
    {
        mention.push(name_chars[q]);
        q += 1;
        proof {
            assert(seq![CHAT_MENTION_PREFIX] + name_chars@.take(q as int)
                =~= (seq![CHAT_MENTION_PREFIX] + name_chars@.take(q - 1)).push(name_chars@[q - 1]));
        }
    }
    proof {
        assert(name_chars@.take(q as int) =~= own_name@);
    }
    let ghost mv = mention@;
    let mut mentioned: Vec<ServerChat> = Vec::new();
    let mut others: Vec<ServerChat> = Vec::new();
    let mut i: usize = 0;
    while i < history.len()
        invariant
            i <= history@.len(),
            h == lines_view(history@),
            mv == mention@,
            lines_view(mentioned@) == mentioning(h.take(i as int), mv),
            lines_view(others@) == not_mentioning(h.take(i as int), mv),
        decreases history@.len() - i,
    {
        let text = chars_of(history[i].text.as_str());
        let hit = contains_chars(text.as_slice(), mention.as_slice());
        proof {
            assert(h.take(i + 1).drop_last() =~= h.take(i as int));
            assert(h.take(i + 1).last() == h[i as int]);
            assert(h[i as int].text == text@);
            reveal(Seq::filter);
        }
        let ghost mb = lines_view(mentioned@);
        let ghost ob = lines_view(others@);
        let line = history[i].duplicate();
        if hit {
            mentioned.push(line);
            proof { assert(lines_view(mentioned@) =~= mb.push(h[i as int])); }
        } else {
            others.push(line);
            proof { assert(lines_view(others@) =~= ob.push(h[i as int])); }
        }
        i += 1;
    }
    proof {
        assert(h.take(i as int) =~= h);
    }
    let room: usize = if mentioned.len() < CHAT_CLIENT_HISTORY_SIZE { CHAT_CLIENT_HISTORY_SIZE - mentioned.len() } else { 0 };
    let keep: usize = if others.len() < room { others.len() } else { room };
    let ghost ov = lines_view(others@);
    let mut combined: Vec<ServerChat> = Vec::new();
    let mut k: usize = others.len() - keep;
    let start = k;
    while k < others.len()
        invariant
            start <= k <= others@.len(),
            ov == lines_view(others@),
            lines_view(combined@) == ov.subrange(start as int, k as int),
        decreases others@.len() - k,
    {
        let ghost cb = lines_view(combined@);
        combined.push(others[k].duplicate());
        proof { assert(lines_view(combined@) =~= cb.push(ov[k as int])); }
        k += 1;
    }
    let sorted_mentioned = sort_lines_by_time(mentioned);
    let ghost cv = lines_view(combined@);
    let ghost sv = lines_view(sorted_mentioned@);
    let mut j: usize = 0;
    while j < sorted_mentioned.len()
        invariant
            j <= sorted_mentioned@.len(),
            sv == lines_view(sorted_mentioned@),
            lines_view(combined@) == cv + sv.take(j as int),
        decreases sorted_mentioned@.len() - j,
    {
        let ghost cb = lines_view(combined@);
        combined.push(sorted_mentioned[j].duplicate());
        proof {
            assert(lines_view(combined@) =~= cb.push(sv[j as int]));
            assert(cv + sv.take(j + 1) =~= (cv + sv.take(j as int)).push(sv[j as int]));
        }
        j += 1;
    }
    proof { assert(sv.take(j as int) =~= sv); }
    let sorted = sort_lines_by_time(combined);
    let ghost all = lines_view(sorted@);
    let mut out: Vec<ServerChat> = Vec::new();
    let mut t: usize = 0;
    while t < sorted.len()
        invariant
            t <= sorted@.len(),
            all == lines_view(sorted@),
            lines_view(out@) == dedup_lines(all.take(t as int)),
        decreases sorted@.len() - t,
    {
        proof {
            assert(all.take(t + 1).drop_last() =~= all.take(t as int));
            assert(all.take(t + 1).last() == all[t as int]);
        }
        let ghost ob = lines_view(out@);
        let keep_it = if out.len() == 0 {
            true
        } else {
            let last = &out[out.len() - 1];
            !(last.timestamp == sorted[t].timestamp && str_eq(last.sender_name.as_str(), sorted[t].sender_name.as_str()))
        };
        if keep_it {
            out.push(sorted[t].duplicate());
            proof { assert(lines_view(out@) =~= ob.push(all[t as int])); }
        }
        t += 1;
    }
    proof { assert(all.take(t as int) =~= all); }
    out
}

/// The first position in `players` of each player id, in order.
pub open spec fn first_of_each_id(players: Seq<AuthenticatedPlayer>) -> Seq<AuthenticatedPlayer>
    decreases players.len(),
{
    if players.len() == 0 {
        seq![]
    } else {
        let rest = first_of_each_id(players.drop_last());
        let p = players.last();
        if exists|k: int| 0 <= k < players.len() - 1 && (#[trigger] players[k]).player_id@ == p.player_id@ {
            rest
        } else {
            rest.push(p)
        }
    }
}

/// The players for `@mention` autocompletion: each player id once, at its first entry.
pub fn autocomplete_players(players: &Vec<AuthenticatedPlayer>) -> (r: Vec<ChatPlayerInfo>)
    ensures
        r@.len() == first_of_each_id(players@).len(),
        forall|k: int| 0 <= k < r@.len() ==> (#[trigger] r@[k]).name@ == first_of_each_id(players@)[k].display_name@
            && r@[k].steam_id == first_of_each_id(players@)[k].steam_id,
{
    let mut out: Vec<ChatPlayerInfo> = Vec::new();
    let ghost chosen: Seq<AuthenticatedPlayer> = seq![];
    let mut i: usize = 0;
    while i < players.len()
        invariant
            i <= players@.len(),
            chosen == first_of_each_id(players@.take(i as int)),
            out@.len() == chosen.len(),
            forall|k: int| 0 <= k < out@.len() ==> (#[trigger] out@[k]).name@ == chosen[k].display_name@
                && out@[k].steam_id == chosen[k].steam_id,
        decreases players@.len() - i,
    {
        let mut seen = false;
        let mut j: usize = 0;
        while j < i
            invariant
                j <= i < players@.len(),
                seen == exists|k: int| 0 <= k < j && (#[trigger] players@[k]).player_id@ == players@[i as int].player_id@,
            decreases i - j,
        {
            if str_eq(players[j].player_id.as_str(), players[i].player_id.as_str()) {
                seen = true;
            }
            j += 1;
        }
        let ghost pre = players@.take(i + 1);
        proof {
            assert(pre.drop_last() =~= players@.take(i as int));
            assert(pre.last() == players@[i as int]);
            assert forall|k: int| 0 <= k < i implies pre[k] == players@[k] by {}
            if seen {
                let k = choose|k: int| 0 <= k < i && (#[trigger] players@[k]).player_id@ == players@[i as int].player_id@;
                assert(pre[k].player_id@ == pre.last().player_id@);
            } else {
                assert(!exists|k: int| 0 <= k < pre.len() - 1 && (#[trigger] pre[k]).player_id@ == pre.last().player_id@) by {
                    if exists|k: int| 0 <= k < pre.len() - 1 && (#[trigger] pre[k]).player_id@ == pre.last().player_id@ {
                        let k = choose|k: int| 0 <= k < pre.len() - 1 && (#[trigger] pre[k]).player_id@ == pre.last().player_id@;
                        assert(players@[k].player_id@ == players@[i as int].player_id@);
                    }
                }
            }
        }
        if !seen {
            out.push(ChatPlayerInfo { name: players[i].display_name.clone(), steam_id: players[i].steam_id });
            proof { chosen = chosen.push(players@[i as int]); }
        }
        i += 1;
    }
    proof { assert(players@.take(i as int) =~= players@); }
    out
}

} // verus!
