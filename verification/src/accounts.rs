use vstd::prelude::*;

use crate::Addr;
use tokio::net::TcpStream;
use tokio::sync::mpsc::{UnboundedReceiver, UnboundedSender};
use tokio_util::codec::{Framed, LinesCodec};

verus! {

#[verifier::external_type_specification]
#[verifier::external_body]
#[verifier::reject_recursive_types(T)]
pub struct ExUnboundedSender<T>(UnboundedSender<T>);

#[verifier::external_type_specification]
#[verifier::external_body]
#[verifier::reject_recursive_types(T)]
pub struct ExUnboundedReceiver<T>(UnboundedReceiver<T>);

#[verifier::external_type_specification]
#[verifier::external_body]
#[verifier::reject_recursive_types(T)]
#[verifier::reject_recursive_types(U)]
pub struct ExFramed<T, U>(Framed<T, U>);

#[verifier::external_type_specification]
#[verifier::external_body]
pub struct ExTcpStream(TcpStream);

#[verifier::external_type_specification]
#[verifier::external_body]
pub struct ExLinesCodec(LinesCodec);

/// Relies on tokio::sync::mpsc::unbounded_channel: returns the linked
/// sender/receiver halves of a fresh unbounded queue of lines.
#[verifier::external_body]
fn new_message_channel() -> (channel: (UnboundedSender<String>, UnboundedReceiver<String>)) {
    tokio::sync::mpsc::unbounded_channel()
}

/// Relies on tokio::sync::mpsc::UnboundedSender::send: enqueues the message
/// without blocking and without bound; it fails only when the receiving half
/// has already been dropped, so whether a concurrently disconnecting target
/// still takes delivery is left open and the result is not relied on.
#[verifier::external_body]
fn send_message(tx: &UnboundedSender<String>, message: String) -> (delivered: bool) {
    tx.send(message).is_ok()
}

/// One registry entry: a connected peer's address and the sending half of
/// that peer's delivery queue.
struct Peer {
    addr: Addr,
    tx: UnboundedSender<String>,
}

/// The addresses of a run of registry entries, in entry order.
spec fn addrs_of(peers: Seq<Peer>) -> Seq<Addr> {
    peers.map(|i: int, p: Peer| p.addr)
}

/// Data shared between all peers of the server: for every connected peer, the
/// sending half of that peer's delivery queue, keyed by its address. Each
/// connection task registers itself on arrival and deregisters itself on any
/// exit; broadcasting enqueues to every entry but the sender's.
pub struct Shared {
    peers: Vec<Peer>,
}

impl View for Shared {
    type V = Set<Addr>;

    /// The set of currently registered addresses.
    closed spec fn view(&self) -> Set<Addr> {
        Set::new(|a: Addr| addrs_of(self.peers@).contains(a))
    }
}

impl Shared {
    /// Well-formed: at most one entry per address.
    pub closed spec fn wf(&self) -> bool {
        addrs_of(self.peers@).no_duplicates()
    }

    /// Create a new, empty, instance of `Shared`.
    pub fn new() -> (s: Shared)
        ensures
            s.wf(),
            s@ == Set::<Addr>::empty(),
    {
        let s = Shared { peers: Vec::new() };
        proof {
            assert(s@ =~= Set::<Addr>::empty());
        }
        s
    }

    /// Insert or replace the delivery handle registered for `addr`. Replacing
    /// is allowed (last writer wins), though under correct usage each live
    /// connection's address is unique and no replacement occurs.
    pub fn register(&mut self, addr: Addr, tx: UnboundedSender<String>)
        requires
            old(self).wf(),
        ensures
            final(self).wf(),
            final(self)@ == old(self)@.insert(addr),
    {
        self.remove_entry(addr);
        let ghost mid = self.peers@;
        self.peers.push(Peer { addr, tx });
        proof {
            assert(addrs_of(self.peers@) =~= addrs_of(mid).push(addr));
            assert forall|a: Addr| #[trigger] addrs_of(self.peers@).contains(a)
                <==> (addrs_of(mid).contains(a) || a == addr) by {
                if addrs_of(mid).contains(a) {
                    let j = choose|j: int| 0 <= j < addrs_of(mid).len() && addrs_of(mid)[j] == a;
                    assert(addrs_of(self.peers@)[j] == a);
                }
                if a == addr {
                    assert(addrs_of(self.peers@)[addrs_of(mid).len() as int] == a);
                }
                if addrs_of(self.peers@).contains(a) {
                    let j = choose|j: int|
                        0 <= j < addrs_of(self.peers@).len() && addrs_of(self.peers@)[j] == a;
                    if j < addrs_of(mid).len() {
                        assert(addrs_of(mid)[j] == a);
                    }
                }
            }
            assert(!addrs_of(mid).contains(addr));
            assert forall|i: int, j: int|
                0 <= i < j < addrs_of(self.peers@).len() implies addrs_of(self.peers@)[i]
                != addrs_of(self.peers@)[j] by {
                if j == addrs_of(mid).len() {
                    assert(addrs_of(mid)[i] == addrs_of(self.peers@)[i]);
                    assert(addrs_of(mid).contains(addrs_of(mid)[i]));
                }
            }
            assert(self@ =~= old(self)@.insert(addr));
        }
    }

    /// Remove the entry for `addr` if one is present; absence is not an
    /// error, and removing never touches any other peer's entry.
    pub fn deregister(&mut self, addr: Addr)
        requires
            old(self).wf(),
        ensures
            final(self).wf(),
            final(self)@ == old(self)@.remove(addr),
    {
        self.remove_entry(addr);
        proof {
            assert(self@ =~= old(self)@.remove(addr));
        }
    }

    fn remove_entry(&mut self, addr: Addr)
        requires
            old(self).wf(),
        ensures
            final(self).wf(),
            forall|a: Addr| #[trigger] addrs_of(final(self).peers@).contains(a) <==> (addrs_of(
                old(self).peers@,
            ).contains(a) && a != addr),
    {
        let mut i: usize = 0;
        while i < self.peers.len()
            invariant
                old(self).wf(),
                self.peers@ == old(self).peers@,
                i <= self.peers@.len(),
                forall|j: int| 0 <= j < i ==> addrs_of(self.peers@)[j] != addr,
            decreases self.peers@.len() - i,
        {
            if self.peers[i].addr == addr {
                let ghost before = self.peers@;
                self.peers.remove(i);
                proof {
                    assert(addrs_of(before).no_duplicates());
                    assert(addrs_of(before)[i as int] == addr);
                    assert(addrs_of(self.peers@) =~= addrs_of(before).remove(i as int));
                    assert forall|a: Addr| #[trigger] addrs_of(self.peers@).contains(a)
                        <==> (addrs_of(before).contains(a) && a != addr) by {
                        if addrs_of(self.peers@).contains(a) {
                            let k = choose|k: int|
                                0 <= k < addrs_of(self.peers@).len() && addrs_of(
                                    self.peers@,
                                )[k] == a;
                            if k < i {
                                assert(addrs_of(before)[k] == a);
                                assert(a != addr);
                            } else {
                                assert(addrs_of(before)[k + 1] == a);
                                assert(k + 1 != i);
                                assert(a != addr);
                            }
                        }
                        if addrs_of(before).contains(a) && a != addr {
                            let k = choose|k: int|
                                0 <= k < addrs_of(before).len() && addrs_of(before)[k] == a;
                            if k < i {
                                assert(addrs_of(self.peers@)[k] == a);
                            } else {
                                assert(k != i);
                                assert(addrs_of(self.peers@)[k - 1] == a);
                            }
                        }
                    }
                    assert forall|p: int, q: int|
                        0 <= p < q < addrs_of(self.peers@).len() implies addrs_of(
                        self.peers@,
                    )[p] != addrs_of(self.peers@)[q] by {
                        let bp: int = if p < i {
                            p
                        } else {
                            p + 1
                        };
                        let bq: int = if q < i {
                            q
                        } else {
                            q + 1
                        };
                        assert(addrs_of(self.peers@)[p] == addrs_of(before)[bp]);
                        assert(addrs_of(self.peers@)[q] == addrs_of(before)[bq]);
                    }
                }
                return ;
            }
            i += 1;
        }
        proof {
            assert forall|a: Addr| #[trigger] addrs_of(self.peers@).contains(a) implies (addrs_of(
                old(self).peers@,
            ).contains(a) && a != addr) by {
                let k = choose|k: int|
                    0 <= k < addrs_of(self.peers@).len() && addrs_of(self.peers@)[k] == a;
                assert(addrs_of(self.peers@)[k] != addr);
            }
        }
    }

    /// Send the message to every registered peer except the sender, holding
    /// the registry unchanged. Delivery is fire-and-forget: a target whose
    /// receiving half is already gone is skipped silently. Returns the
    /// addresses the message was enqueued toward: every registered address
    /// but the sender's, each exactly once.
    pub fn broadcast(&mut self, sender: Addr, message: &str) -> (targets: Vec<Addr>)
        requires
            old(self).wf(),
        ensures
            *final(self) == *old(self),
            targets@.no_duplicates(),
            forall|a: Addr| #[trigger] targets@.contains(a) <==> (old(self)@.contains(a) && a
                != sender),
    {
        let mut targets: Vec<Addr> = Vec::new();
        let mut i: usize = 0;
        while i < self.peers.len()
            invariant
                old(self).wf(),
                *self == *old(self),
                i <= self.peers@.len(),
                targets@.no_duplicates(),
                forall|a: Addr| #[trigger] targets@.contains(a) <==> (exists|j: int|
                    0 <= j < i && addrs_of(self.peers@)[j] == a && a != sender),
            decreases self.peers@.len() - i,
        {
            let ghost prev = targets@;
            let p = &self.peers[i];
            if p.addr != sender {
                let _delivered = send_message(&p.tx, String::from_str(message));
                targets.push(p.addr);
                proof {
                    assert forall|a: Addr| #[trigger] targets@.contains(a) <==> (exists|j: int|
                        0 <= j < i + 1 && addrs_of(self.peers@)[j] == a && a != sender) by {
                        if targets@.contains(a) {
                            let k = choose|k: int|
                                0 <= k < targets@.len() && targets@[k] == a;
                            if k < prev.len() {
                                assert(prev[k] == a);
                                assert(prev.contains(a));
                            } else {
                                assert(addrs_of(self.peers@)[i as int] == a);
                            }
                        }
                        if exists|j: int| 0 <= j < i + 1 && addrs_of(self.peers@)[j] == a && a
                            != sender {
                            let j = choose|j: int|
                                0 <= j < i + 1 && addrs_of(self.peers@)[j] == a && a != sender;
                            if j < i {
                                assert(prev.contains(a));
                                let k = choose|k: int| 0 <= k < prev.len() && prev[k] == a;
                                assert(targets@[k] == a);
                            } else {
                                assert(targets@[targets@.len() - 1] == a);
                            }
                        }
                    }
                    assert(!prev.contains(addrs_of(self.peers@)[i as int]));
                    assert forall|p_: int, q_: int|
                        0 <= p_ < q_ < targets@.len() implies targets@[p_] != targets@[q_] by {
                        if q_ == targets@.len() - 1 {
                            assert(prev[p_] == targets@[p_]);
                            assert(prev.contains(prev[p_]));
                        }
                    }
                }
            } else {
                proof {
                    assert forall|a: Addr| #[trigger] targets@.contains(a) <==> (exists|j: int|
                        0 <= j < i + 1 && addrs_of(self.peers@)[j] == a && a != sender) by {
                        if exists|j: int| 0 <= j < i + 1 && addrs_of(self.peers@)[j] == a && a
                            != sender {
                            let j = choose|j: int|
                                0 <= j < i + 1 && addrs_of(self.peers@)[j] == a && a != sender;
                            assert(j < i || addrs_of(self.peers@)[i as int] == sender);
                        }
                    }
                }
            }
            i += 1;
        }
        proof {
            assert forall|a: Addr| #[trigger] targets@.contains(a) <==> (self@.contains(a) && a
                != sender) by {
                if self@.contains(a) && a != sender {
                    let j = choose|j: int|
                        0 <= j < addrs_of(self.peers@).len() && addrs_of(self.peers@)[j] == a;
                    assert(0 <= j < i && addrs_of(self.peers@)[j] == a && a != sender);
                }
            }
        }
        targets
    }

    /// Whether `addr` is currently registered.
    pub fn contains(&self, addr: Addr) -> (present: bool)
        ensures
            present == self@.contains(addr),
    {
        let mut i: usize = 0;
        while i < self.peers.len()
            invariant
                i <= self.peers@.len(),
                forall|j: int| 0 <= j < i ==> addrs_of(self.peers@)[j] != addr,
            decreases self.peers@.len() - i,
        {
            if self.peers[i].addr == addr {
                proof {
                    assert(addrs_of(self.peers@)[i as int] == addr);
                }
                return true;
            }
            i += 1;
        }
        proof {
            assert forall|j: int|
                0 <= j < addrs_of(self.peers@).len() implies addrs_of(self.peers@)[j]
                != addr by {}
        }
        false
    }

    /// How many peers are currently registered.
    pub fn len(&self) -> (n: usize)
        requires
            self.wf(),
        ensures
            n == self@.len(),
    {
        proof {
            addrs_of(self.peers@).unique_seq_to_set();
            assert(self@ =~= addrs_of(self.peers@).to_set());
        }
        self.peers.len()
    }
}

/// The state for each connected client: the line-framed transport over its
/// socket and the receiving half of its delivery queue.
pub struct Account {
    /// The TCP socket wrapped with a line codec, so the connection loop works
    /// with whole text lines instead of raw bytes.
    pub lines: Framed<TcpStream, LinesCodec>,
    /// Receiving half of the message channel: messages relayed by other
    /// peers arrive here and are written out on `lines`.
    pub rx: UnboundedReceiver<String>,
}

impl Account {
    /// Create the state for a newly accepted client: set up its delivery
    /// queue and register the sending half in the shared registry under the
    /// client's address.
    pub fn new(state: &mut Shared, addr: Addr, lines: Framed<TcpStream, LinesCodec>) -> (account:
        Account)
        requires
            old(state).wf(),
        ensures
            final(state).wf(),
            final(state)@ == old(state)@.insert(addr),
    {
        let (tx, rx) = new_message_channel();
        state.register(addr, tx);
        Account { lines, rx }
    }
}

} // verus!
