use hads::accounts::Shared;
use hads::session::{handle_line, step, Event};
use hads::Addr;
use tokio::sync::mpsc::{unbounded_channel, UnboundedReceiver, UnboundedSender};

fn addr(port: u16) -> Addr {
    Addr { ip: 0x7f000001, port, v6: false }
}

fn channel() -> (UnboundedSender<String>, UnboundedReceiver<String>) {
    unbounded_channel()
}

#[test]
fn handle_chat_line_is_tagged_and_relayed() {
    let s = handle_line(String::from("hello"));
    assert!(s.reply.is_none());
    assert_eq!(s.relay.unwrap(), "MSG hello");
    assert!(!s.done);
}

#[test]
fn handle_ping_line_replies_without_relay() {
    let s = handle_line(String::from("ping"));
    assert_eq!(s.reply.unwrap(), "PONG");
    assert!(s.relay.is_none());
    assert!(!s.done);
}

#[test]
fn handle_pub_line_is_not_relayed() {
    let s = handle_line(String::from("pub topic body"));
    assert!(s.reply.is_none());
    assert!(s.relay.is_none());
}

#[test]
fn handle_empty_line_is_chat() {
    let s = handle_line(String::new());
    assert!(s.reply.is_none());
    assert_eq!(s.relay.unwrap(), "MSG ");
}

#[test]
fn step_relayed_message_is_written_out() {
    let s = step(Event::Relayed(String::from("MSG hi")));
    assert_eq!(s.reply.unwrap(), "MSG hi");
    assert!(s.relay.is_none());
    assert!(!s.done);
}

#[test]
fn step_read_error_keeps_the_loop_running() {
    let s = step(Event::ReadError);
    assert!(s.reply.is_none());
    assert!(s.relay.is_none());
    assert!(!s.done);
}

#[test]
fn step_disconnect_ends_the_loop() {
    let s = step(Event::Disconnected);
    assert!(s.reply.is_none());
    assert!(s.relay.is_none());
    assert!(s.done);
}

#[test]
fn registry_has_one_entry_per_address() {
    let mut shared = Shared::new();
    assert_eq!(shared.len(), 0);
    let (tx_a, _rx_a) = channel();
    shared.register(addr(1), tx_a);
    assert!(shared.contains(addr(1)));
    assert_eq!(shared.len(), 1);
    let (tx_a2, _rx_a2) = channel();
    shared.register(addr(1), tx_a2);
    assert_eq!(shared.len(), 1);
    let (tx_b, _rx_b) = channel();
    shared.register(addr(2), tx_b);
    assert_eq!(shared.len(), 2);
}

#[test]
fn deregister_removes_once_and_tolerates_absence() {
    let mut shared = Shared::new();
    let (tx_a, _rx_a) = channel();
    shared.register(addr(1), tx_a);
    shared.deregister(addr(1));
    assert!(!shared.contains(addr(1)));
    assert_eq!(shared.len(), 0);
    shared.deregister(addr(1));
    assert_eq!(shared.len(), 0);
    shared.deregister(addr(9));
    assert_eq!(shared.len(), 0);
}

#[test]
fn broadcast_excludes_the_sender() {
    let mut shared = Shared::new();
    let (tx_a, mut rx_a) = channel();
    let (tx_b, mut rx_b) = channel();
    let (tx_c, mut rx_c) = channel();
    shared.register(addr(1), tx_a);
    shared.register(addr(2), tx_b);
    shared.register(addr(3), tx_c);
    let targets = shared.broadcast(addr(1), "MSG hello");
    assert_eq!(targets.len(), 2);
    assert!(!targets.contains(&addr(1)));
    assert!(rx_a.try_recv().is_err());
    assert_eq!(rx_b.try_recv().unwrap(), "MSG hello");
    assert_eq!(rx_c.try_recv().unwrap(), "MSG hello");
}

#[test]
fn broadcast_delivers_exactly_one_copy_to_each_peer() {
    let mut shared = Shared::new();
    let (tx_a, _rx_a) = channel();
    let (tx_b, mut rx_b) = channel();
    shared.register(addr(1), tx_a);
    shared.register(addr(2), tx_b);
    shared.broadcast(addr(1), "MSG once");
    assert_eq!(rx_b.try_recv().unwrap(), "MSG once");
    assert!(rx_b.try_recv().is_err());
}

#[test]
fn broadcast_skips_a_dropped_receiver_silently() {
    let mut shared = Shared::new();
    let (tx_a, _rx_a) = channel();
    let (tx_b, rx_b) = channel();
    shared.register(addr(1), tx_a);
    shared.register(addr(2), tx_b);
    drop(rx_b);
    let targets = shared.broadcast(addr(1), "MSG hello");
    assert_eq!(targets.len(), 1);
}

#[test]
fn no_broadcast_reaches_a_deregistered_peer() {
    let mut shared = Shared::new();
    let (tx_a, _rx_a) = channel();
    let (tx_b, mut rx_b) = channel();
    shared.register(addr(1), tx_a);
    shared.register(addr(2), tx_b);
    shared.deregister(addr(2));
    let targets = shared.broadcast(addr(1), "MSG late");
    assert!(targets.is_empty());
    assert!(rx_b.try_recv().is_err());
}

#[test]
fn two_peers_chat_then_ping() {
    let mut shared = Shared::new();
    let a = addr(1);
    let b = addr(2);
    let (tx_a, mut rx_a) = channel();
    let (tx_b, mut rx_b) = channel();
    shared.register(a, tx_a);
    shared.register(b, tx_b);

    // Peer A's socket produces the line "hello".
    let s = step(Event::Line(String::from("hello")));
    assert!(s.reply.is_none());
    let relayed = s.relay.unwrap();
    shared.broadcast(a, &relayed);
    assert!(rx_a.try_recv().is_err());
    let delivered = rx_b.try_recv().unwrap();
    assert_eq!(delivered, "MSG hello");

    // Peer B's loop wakes on the relayed message and writes it out.
    let s = step(Event::Relayed(delivered));
    assert_eq!(s.reply.unwrap(), "MSG hello");

    // Peer A then sends "ping": PONG on A's own socket, nothing for B.
    let s = step(Event::Line(String::from("ping")));
    assert_eq!(s.reply.unwrap(), "PONG");
    assert!(s.relay.is_none());
    assert!(rx_b.try_recv().is_err());
    assert!(rx_a.try_recv().is_err());
}
