use hads::commands::Command;

#[test]
fn parse_ping_lowercase() {
    let cmd = Command::new("ping").unwrap();
    assert!(matches!(cmd, Command::PING));
}

#[test]
fn parse_ping_uppercase() {
    let cmd = Command::new("PING").unwrap();
    assert!(matches!(cmd, Command::PING));
}

#[test]
fn parse_ping_mixed_case() {
    let cmd = Command::new("PiNg").unwrap();
    assert!(matches!(cmd, Command::PING));
}

#[test]
fn parse_ping_with_suffix_is_not_ping() {
    let r = Command::new("pinger");
    assert!(r.is_err());
}

#[test]
fn parse_pub_prefix() {
    let cmd = Command::new("pub topic hello").unwrap();
    match cmd {
        Command::PUB(message, topic) => {
            assert_eq!(message, "");
            assert_eq!(topic, "");
        }
        _ => panic!("expected PUB"),
    }
}

#[test]
fn parse_pub_uppercase() {
    let cmd = Command::new("PUB x").unwrap();
    assert!(matches!(cmd, Command::PUB(_, _)));
}

#[test]
fn parse_sub_prefix() {
    let cmd = Command::new("sub topics").unwrap();
    assert!(matches!(cmd, Command::SUB));
}

#[test]
fn parse_sub_uppercase() {
    let cmd = Command::new("SUB").unwrap();
    assert!(matches!(cmd, Command::SUB));
}

#[test]
fn parse_plain_chat_line_fails() {
    let r = Command::new("hello");
    assert_eq!(r.err().unwrap(), "Invalid input");
}

#[test]
fn parse_empty_line_fails() {
    let r = Command::new("");
    assert_eq!(r.err().unwrap(), "Invalid input");
}

#[test]
fn execute_ping_replies_pong() {
    let reply = Command::PING.execute();
    assert_eq!(reply.unwrap(), "PONG");
}

#[test]
fn execute_pub_is_silent() {
    let reply = Command::PUB("", "").execute();
    assert!(reply.is_none());
}

#[test]
fn execute_sub_is_silent() {
    let reply = Command::SUB.execute();
    assert!(reply.is_none());
}
