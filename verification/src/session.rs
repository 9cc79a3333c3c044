use vstd::prelude::*;

use crate::commands::{
    is_command, is_ping, opt_view, reply_for, Command,
};

verus! {

/// One wakeup of a connection's event loop: either a message relayed by
/// another peer arrived on this connection's delivery queue, or the transport
/// produced something (a decoded line, a recoverable read error, or the end
/// of the stream after a clean close).
pub enum Event {
    Relayed(String),
    Line(String),
    ReadError,
    Disconnected,
}

/// What one loop iteration owes: `reply` is written out this connection's own
/// socket, `relay` is broadcast to every other registered peer, and `done`
/// tells the loop to exit and run its cleanup.
pub struct Step {
    pub reply: Option<String>,
    pub relay: Option<String>,
    pub done: bool,
}

/// The reply owed on the connection's own socket for one inbound line:
/// `PONG` for a `PING`, nothing otherwise.
pub open spec fn reply_of(line: Seq<char>) -> Option<Seq<char>> {
    if is_ping(line) {
        Some("PONG"@)
    } else {
        None
    }
}

/// The message owed to every other peer for one inbound line: a recognized
/// command is executed and not relayed; any other line is a chat message,
/// relayed verbatim under the fixed `MSG ` tag.
pub open spec fn relay_of(line: Seq<char>) -> Option<Seq<char>> {
    if is_command(line) {
        None
    } else {
        Some("MSG "@ + line)
    }
}

/// Handle one decoded line from the socket: dispatch it as a command, or tag
/// it and relay it as a chat message. A parse failure is a per-line event,
/// never fatal to the connection.
pub fn handle_line(line: String) -> (s: Step)
    ensures
        opt_view(s.reply) == reply_of(line@),
        opt_view(s.relay) == relay_of(line@),
        !s.done,
{
    match Command::new(line.as_str()) {
        Ok(cmd) => {
            let reply = cmd.execute();
            proof {
                if !is_ping(line@) {
                    assert(reply_for(cmd) is None);
                }
            }
            Step { reply, relay: None, done: false }
        },
        Err(_reason) => {
            let mut tagged = String::from_str("MSG ");
            tagged.append(line.as_str());
            Step { reply: None, relay: Some(tagged), done: false }
        },
    }
}

/// Decide one iteration of a connection's event loop. A relayed message is
/// written out unchanged on this connection's own socket; a decoded line is
/// dispatched and relayed per `handle_line`; a read error is recovered
/// locally and the loop goes on; end of stream ends the loop, after which
/// the connection's registry entry is removed.
pub fn step(event: Event) -> (s: Step)
    ensures
        s.done == (event is Disconnected),
        event matches Event::Relayed(m) ==> opt_view(s.reply) == Some(m@) && s.relay is None,
        event matches Event::Line(l) ==> opt_view(s.reply) == reply_of(l@) && opt_view(s.relay)
            == relay_of(l@),
        event is ReadError ==> s.reply is None && s.relay is None,
        event is Disconnected ==> s.reply is None && s.relay is None,
{
    match event {
        Event::Relayed(message) => Step { reply: Some(message), relay: None, done: false },
        Event::Line(line) => handle_line(line),
        Event::ReadError => Step { reply: None, relay: None, done: false },
        Event::Disconnected => Step { reply: None, relay: None, done: true },
    }
}

/// How many of the lines are `PING` commands.
pub open spec fn ping_count(lines: Seq<Seq<char>>) -> nat
    decreases lines.len(),
{
    if lines.len() == 0 {
        0
    } else {
        ping_count(lines.drop_last()) + if is_ping(lines.last()) {
            1nat
        } else {
            0nat
        }
    }
}

/// The replies written back on a connection's own socket for a run of its
/// inbound lines, in order.
pub open spec fn replies_of(lines: Seq<Seq<char>>) -> Seq<Seq<char>>
    decreases lines.len(),
{
    if lines.len() == 0 {
        Seq::empty()
    } else {
        replies_of(lines.drop_last()) + match reply_of(lines.last()) {
            Some(r) => seq![r],
            None => Seq::empty(),
        }
    }
}

/// Law (PING idempotence): over any run of inbound lines, in any interleaving
/// with other traffic, the connection is owed exactly one `PONG` per `PING`
/// line — the reply stream holds one entry per `PING` and nothing else — and
/// a `PING` line is never relayed to any other peer.
pub proof fn lemma_one_pong_per_ping(lines: Seq<Seq<char>>)
    ensures
        replies_of(lines).len() == ping_count(lines),
        forall|i: int| 0 <= i < replies_of(lines).len() ==> replies_of(lines)[i] == "PONG"@,
        forall|i: int| 0 <= i < lines.len() && is_ping(#[trigger] lines[i]) ==> relay_of(lines[i])
            is None,
    decreases lines.len(),
{
    if lines.len() > 0 {
        lemma_one_pong_per_ping(lines.drop_last());
        assert forall|i: int|
            0 <= i < replies_of(lines).len() implies replies_of(lines)[i] == "PONG"@ by {
            if i < replies_of(lines.drop_last()).len() {
                assert(replies_of(lines)[i] == replies_of(lines.drop_last())[i]);
            }
        }
        assert forall|i: int|
            0 <= i < lines.len() && is_ping(#[trigger] lines[i]) implies relay_of(lines[i])
            is None by {
            if i < lines.len() - 1 {
                assert(lines.drop_last()[i] == lines[i]);
            }
        }
    }
}

} // verus!
