use vstd::prelude::*;

verus! {

/// One inbound line, parsed into the closed set of commands the server
/// understands. `PUB` carries a message and a topic; topic routing is an
/// extension point, so parsing currently fills both with empty placeholders.
pub enum Command<'a> {
    PING,
    PUB(&'a str, &'a str),
    SUB,
}

/// `c` is `lower` or `upper`: one character matched without regard to case.
pub open spec fn matches_ci(c: char, lower: char, upper: char) -> bool {
    c == lower || c == upper
}

/// The line is exactly the word `ping`, in any mix of case.
pub open spec fn is_ping(s: Seq<char>) -> bool {
    &&& s.len() == 4
    &&& matches_ci(s[0], 'p', 'P')
    &&& matches_ci(s[1], 'i', 'I')
    &&& matches_ci(s[2], 'n', 'N')
    &&& matches_ci(s[3], 'g', 'G')
}

/// The line begins with the word `pub`, in any mix of case.
pub open spec fn has_pub_prefix(s: Seq<char>) -> bool {
    &&& s.len() >= 3
    &&& matches_ci(s[0], 'p', 'P')
    &&& matches_ci(s[1], 'u', 'U')
    &&& matches_ci(s[2], 'b', 'B')
}

/// The line begins with the word `sub`, in any mix of case.
pub open spec fn has_sub_prefix(s: Seq<char>) -> bool {
    &&& s.len() >= 3
    &&& matches_ci(s[0], 's', 'S')
    &&& matches_ci(s[1], 'u', 'U')
    &&& matches_ci(s[2], 'b', 'B')
}

/// The line is recognized as one of the three commands.
pub open spec fn is_command(s: Seq<char>) -> bool {
    is_ping(s) || has_pub_prefix(s) || has_sub_prefix(s)
}

/// The reply a command writes back on its own connection: `PONG` for `PING`,
/// nothing for the others.
pub open spec fn reply_for(c: Command) -> Option<Seq<char>> {
    match c {
        Command::PING => Some("PONG"@),
        Command::PUB(_, _) => None,
        Command::SUB => None,
    }
}

/// The character sequence of an optional owned string.
pub open spec fn opt_view(o: Option<String>) -> Option<Seq<char>> {
    match o {
        Some(s) => Some(s@),
        None => None,
    }
}

fn char_matches_ci(c: char, lower: char, upper: char) -> (r: bool)
    ensures
        r == matches_ci(c, lower, upper),
{
    c == lower || c == upper
}

impl Command<'_> {
    /// Parse one decoded line into a command; any line that matches none of
    /// the recognized shapes is reported as a parse failure.
    pub fn new(message: &str) -> (r: Result<Command, &str>)
        ensures
            is_ping(message@) ==> (r matches Ok(c) && c is PING),
            !is_ping(message@) && has_pub_prefix(message@) ==> (r matches Ok(c)
                && c matches Command::PUB(m, t) && m@.len() == 0 && t@.len() == 0),
            !is_ping(message@) && !has_pub_prefix(message@) && has_sub_prefix(message@)
                ==> (r matches Ok(c) && c is SUB),
            !is_command(message@) ==> (r matches Err(e) && e@ == "Invalid input"@),
    {
        let len = message.unicode_len();
        if len == 4 && char_matches_ci(message.get_char(0), 'p', 'P')
            && char_matches_ci(message.get_char(1), 'i', 'I')
            && char_matches_ci(message.get_char(2), 'n', 'N')
            && char_matches_ci(message.get_char(3), 'g', 'G') {
            Ok(Command::PING)
        } else if len >= 3 && char_matches_ci(message.get_char(0), 'p', 'P')
            && char_matches_ci(message.get_char(1), 'u', 'U')
            && char_matches_ci(message.get_char(2), 'b', 'B') {
            proof {
                reveal_strlit("");
            }
            Ok(Command::PUB("", ""))
        } else if len >= 3 && char_matches_ci(message.get_char(0), 's', 'S')
            && char_matches_ci(message.get_char(1), 'u', 'U')
            && char_matches_ci(message.get_char(2), 'b', 'B') {
            Ok(Command::SUB)
        } else {
            Err("Invalid input")
        }
    }

    /// Execute the command and hand back the reply owed on the executing
    /// connection's own transport; the command itself never relays anything
    /// to other peers.
    pub fn execute(&self) -> (reply: Option<String>)
        ensures
            opt_view(reply) == reply_for(*self),
    {
        match self {
            Command::PING => Some(String::from_str("PONG")),
            Command::PUB(message, topic) => {
                publish(message, topic);
                None
            },
            Command::SUB => {
                subscribe(Vec::new());
                None
            },
        }
    }
}

/// Extension point for topic-based routing: validating the topic and
/// delivering to its subscribers is future work, so executing `PUB` has no
/// observable effect beyond its parse.
pub fn publish(message: &str, topic: &str) {
    let _ = message;
    let _ = topic;
}

/// Extension point for topic subscription: recording the topics against the
/// subscriber is future work, so executing `SUB` has no observable effect
/// beyond its parse.
pub fn subscribe(topics: Vec<String>) {
    let _ = topics;
}

} // verus!
