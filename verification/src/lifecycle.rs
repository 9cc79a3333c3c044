use vstd::prelude::*;

use crate::Addr;

verus! {

/// The states a connection moves through: accepted but not yet registered;
/// registered in the shared registry; serving its event loop; loop exited,
/// cleanup pending; cleaned up.
pub enum SessionState {
    Connecting,
    Registered,
    Active,
    Closing,
    Closed,
}

/// A connection-lifecycle event, at the granularity the registry sees:
/// `Accept` takes the socket in before any registry entry exists, `Connect`
/// registers the peer, `Activate` starts its event loop, and `Disconnect`
/// covers every exit route (clean close, transport failure) and carries the
/// guaranteed cleanup with it.
pub enum ConnEvent {
    Accept(Addr),
    Connect(Addr),
    Activate(Addr),
    Disconnect(Addr),
}

/// The registry-relevant state of the whole server: each known connection's
/// lifecycle state and the set of registered addresses.
pub struct ServerModel {
    pub sessions: Map<Addr, SessionState>,
    pub registry: Set<Addr>,
}

/// The server before any connection arrived.
pub open spec fn init() -> ServerModel {
    ServerModel { sessions: Map::empty(), registry: Set::empty() }
}

/// How one lifecycle event moves the server model: accepting tracks the
/// connection before it has an entry (an address still held by a live
/// connection cannot be accepted anew), connecting registers the address,
/// activating only marks a registered session active, and disconnecting
/// closes the session and removes its registry entry in the same step,
/// whatever route led to it.
pub open spec fn apply(m: ServerModel, e: ConnEvent) -> ServerModel {
    match e {
        ConnEvent::Accept(a) => if m.registry.contains(a) {
            m
        } else {
            ServerModel {
                sessions: m.sessions.insert(a, SessionState::Connecting),
                registry: m.registry,
            }
        },
        ConnEvent::Connect(a) => ServerModel {
            sessions: m.sessions.insert(a, SessionState::Registered),
            registry: m.registry.insert(a),
        },
        ConnEvent::Activate(a) => if m.sessions.dom().contains(a) && m.sessions[a]
            is Registered {
            ServerModel {
                sessions: m.sessions.insert(a, SessionState::Active),
                registry: m.registry,
            }
        } else {
            m
        },
        ConnEvent::Disconnect(a) => ServerModel {
            sessions: m.sessions.insert(a, SessionState::Closed),
            registry: m.registry.remove(a),
        },
    }
}

/// The server model after a whole sequence of lifecycle events.
pub open spec fn apply_all(m: ServerModel, events: Seq<ConnEvent>) -> ServerModel
    decreases events.len(),
{
    if events.len() == 0 {
        m
    } else {
        apply(apply_all(m, events.drop_last()), events.last())
    }
}

/// An address is registered exactly when its connection sits between
/// successful registration and cleanup.
pub open spec fn registry_matches_states(m: ServerModel) -> bool {
    forall|a: Addr| #[trigger] m.registry.contains(a) <==> (m.sessions.dom().contains(a)
        && (m.sessions[a] is Registered || m.sessions[a] is Active))
}

/// Law: one lifecycle event keeps the registry in step with the connection
/// states — an entry exists exactly for connections between registration and
/// cleanup.
pub proof fn lemma_event_preserves_correspondence(m: ServerModel, e: ConnEvent)
    requires
        registry_matches_states(m),
    ensures
        registry_matches_states(apply(m, e)),
{
    let next = apply(m, e);
    assert forall|a: Addr| #[trigger] next.registry.contains(a) <==> (next.sessions.dom().contains(
        a,
    ) && (next.sessions[a] is Registered || next.sessions[a] is Active)) by {
        assert(m.registry.contains(a) <==> (m.sessions.dom().contains(a) && (m.sessions[a]
            is Registered || m.sessions[a] is Active)));
    }
}

/// Law (registry uniqueness): after any sequence of connect, activate and
/// disconnect events starting from the empty server, an address has an entry
/// in the registry exactly when its connection is in the registered or active
/// state — and the registry being a set, at most one entry per address can
/// exist at any instant.
pub proof fn lemma_registry_uniqueness(events: Seq<ConnEvent>)
    ensures
        registry_matches_states(apply_all(init(), events)),
    decreases events.len(),
{
    if events.len() == 0 {
        assert(registry_matches_states(init()));
    } else {
        lemma_registry_uniqueness(events.drop_last());
        lemma_event_preserves_correspondence(apply_all(init(), events.drop_last()), events.last());
    }
}

/// Law (cleanup guarantee, first half): disconnecting a connection — by any
/// exit route — removes its registry entry and closes its session; a repeated
/// disconnect of the same address leaves the registry as it was, so the entry
/// is removed exactly once.
pub proof fn lemma_cleanup_removes_entry(m: ServerModel, a: Addr)
    ensures
        !apply(m, ConnEvent::Disconnect(a)).registry.contains(a),
        apply(m, ConnEvent::Disconnect(a)).sessions[a] is Closed,
        !m.registry.contains(a) ==> apply(m, ConnEvent::Disconnect(a)).registry == m.registry,
{
    if !m.registry.contains(a) {
        assert(apply(m, ConnEvent::Disconnect(a)).registry =~= m.registry);
    }
}

/// Law (cleanup guarantee, second half): once an address is out of the
/// registry it stays out under any further events that do not reconnect it,
/// so nothing is ever again addressed to the cleaned-up connection.
pub proof fn lemma_closed_peer_stays_out(m: ServerModel, events: Seq<ConnEvent>, a: Addr)
    requires
        !m.registry.contains(a),
        forall|i: int| 0 <= i < events.len() ==> events[i] != ConnEvent::Connect(a),
    ensures
        !apply_all(m, events).registry.contains(a),
    decreases events.len(),
{
    if events.len() > 0 {
        lemma_closed_peer_stays_out(m, events.drop_last(), a);
    }
}

/// Law (broadcast exclusion): the targets of a broadcast — every registered
/// address other than the sender's, which is what `Shared::broadcast`
/// ensures — never include the sender, so the originating connection never
/// receives its own message back.
pub proof fn lemma_broadcast_excludes_sender(registry: Set<Addr>, targets: Seq<Addr>, sender: Addr)
    requires
        forall|a: Addr| #[trigger] targets.contains(a) <==> (registry.contains(a) && a != sender),
    ensures
        !targets.contains(sender),
{
}

/// Law (no lost delivery): under the contract of `Shared::broadcast`, every
/// peer other than the sender that is registered when the message is sent is
/// enqueued the message at exactly one position of the target list — one
/// copy, no more, no less.
pub proof fn lemma_broadcast_reaches_each_peer_once(
    registry: Set<Addr>,
    targets: Seq<Addr>,
    sender: Addr,
    peer: Addr,
)
    requires
        forall|a: Addr| #[trigger] targets.contains(a) <==> (registry.contains(a) && a != sender),
        targets.no_duplicates(),
        registry.contains(peer),
        peer != sender,
    ensures
        exists|i: int|
            0 <= i < targets.len() && targets[i] == peer && (forall|j: int|
                0 <= j < targets.len() && targets[j] == peer ==> j == i),
{
    assert(targets.contains(peer));
    let i = choose|i: int| 0 <= i < targets.len() && targets[i] == peer;
    assert(0 <= i < targets.len() && targets[i] == peer && (forall|j: int|
        0 <= j < targets.len() && targets[j] == peer ==> j == i));
}

/// Law (cleanup guarantee, applied to broadcast): a broadcast that runs after
/// a peer's registry entry was removed never targets that peer.
pub proof fn lemma_no_delivery_after_cleanup(
    registry: Set<Addr>,
    targets: Seq<Addr>,
    sender: Addr,
    gone: Addr,
)
    requires
        forall|a: Addr| #[trigger] targets.contains(a) <==> (registry.contains(a) && a != sender),
        !registry.contains(gone),
    ensures
        !targets.contains(gone),
{
}

} // verus!
