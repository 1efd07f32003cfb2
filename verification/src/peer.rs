//! The peers of a network as one of them knows them, and how it sends messages to
//! them.

use vstd::prelude::*;

use crate::net::SocketAddr;
use crate::util::SerializableSocketAddr;

verus! {

/// How many bytes are read from a connection at a time.
pub const TCP_STREAM_READ_BUFFER_SIZE: usize = 256;

/// How long connecting may take.
pub const TCP_STREAM_CONNECTION_TIMEOUT_SECS: u64 = 15;

/// How long the next segment of a packet may take.
pub const TCP_STREAM_READ_TIMEOUT_SECS: u64 = 5;

/// What can go wrong between peers.
#[derive(Debug, Clone, Copy, PartialEq, Eq, Structural)]
pub enum BantamError {
    ConnectionTimeout,
    ReadTimeout,
    ReceivedCorruptedPacket,
}

impl BantamError {
    /// The words for a log or an error message.
    pub fn message(&self) -> (text: String)
        ensures
            text@ == match self {
                BantamError::ConnectionTimeout => "ConnectionTimeout"@,
                BantamError::ReadTimeout => "ReadTimeout"@,
                BantamError::ReceivedCorruptedPacket => "ReceivedCorruptedPacket"@,
            },
    {
        match self {
            BantamError::ConnectionTimeout => "ConnectionTimeout".to_string(),
            BantamError::ReadTimeout => "ReadTimeout".to_string(),
            BantamError::ReceivedCorruptedPacket => "ReceivedCorruptedPacket".to_string(),
        }
    }
}

/// tokio's sending half of an unbounded channel. Nothing inside it is visible.
#[verifier::external_type_specification]
#[verifier::external_body]
#[verifier::reject_recursive_types(T)]
pub struct ExUnboundedSender<T>(tokio::sync::mpsc::UnboundedSender<T>);

/// The queue of messages to one peer.
pub type Tx = tokio::sync::mpsc::UnboundedSender<Vec<u8>>;

/// A message that could not be queued: whom it was for, and its bytes.
#[derive(Debug)]
pub struct SendFailure {
    pub addr: SocketAddr,
    pub bytes: Vec<u8>,
}

/// The messages that `queue_message` has put into the channel through the handle
/// `sender`, oldest first.
pub uninterp spec fn sent(sender: Tx) -> Seq<Seq<u8>>;

/// The messages that `queue_message` was handed back when it tried to put them into
/// the channel through the handle `sender`, oldest first.
pub uninterp spec fn refused(sender: Tx) -> Seq<Seq<u8>>;

/// Whether `bytes`, and nothing else, went to the handle between `before` and
/// `after`, and was `taken` or handed back.
pub open spec fn handed(before: Tx, after: Tx, bytes: Seq<u8>, taken: bool) -> bool {
    if taken {
        &&& sent(after) == sent(before).push(bytes)
        &&& refused(after) == refused(before)
    } else {
        &&& sent(after) == sent(before)
        &&& refused(after) == refused(before).push(bytes)
    }
}

/// Queues `bytes` for the task that writes to the connection. Calls
/// `UnboundedSender::send` of tokio once, which is trusted to put the message into
/// the channel once where it succeeds, and to put nothing there and hand the
/// message back where it fails. Whether it fails depends on whether the receiving
/// half still exists, so nothing is said of that. The handle is borrowed mutably,
/// although `send` asks for less, so that what went through it can be told.
#[verifier::external_body]
fn queue_message(sender: &mut Tx, bytes: Vec<u8>) -> (result: Result<(), Vec<u8>>)
    ensures
        match result {
            Ok(()) => {
                &&& sent(*final(sender)) == sent(*old(sender)).push(bytes@)
                &&& refused(*final(sender)) == refused(*old(sender))
            },
            Err(back) => {
                &&& sent(*final(sender)) == sent(*old(sender))
                &&& refused(*final(sender)) == refused(*old(sender)).push(bytes@)
                &&& back@ == bytes@
            },
        },
{
    sender.send(bytes).map_err(|e| e.0)
}

/// Hands `bytes` to the queue of the peer under `addr`.
fn deliver(addr: SocketAddr, sender: &mut Tx, bytes: Vec<u8>) -> (result: Result<(), SendFailure>)
    ensures
        handed(*old(sender), *final(sender), bytes@, result is Ok),
        result matches Err(failure) ==> failure.addr == addr && failure.bytes@ == bytes@,
{
    delivery_report(addr, queue_message(sender, bytes))
}

/// What is reported of a message to `addr`, given what its queue replied.
pub fn delivery_report(addr: SocketAddr, reply: Result<(), Vec<u8>>) -> (result: Result<
    (),
    SendFailure,
>)
    ensures
        match reply {
            Ok(()) => result is Ok,
            Err(back) => result == Err::<(), _>(SendFailure { addr, bytes: back }),
        },
{
    match reply {
        Ok(()) => Ok(()),
        Err(back) => Err(SendFailure { addr, bytes: back }),
    }
}

/// A connected peer: the address on which it listens, and the queue of messages
/// to it.
pub struct Peer {
    pub listener_addr: SocketAddr,
    pub sender: Tx,
}

/// What a peer knows of its network: the address on which it listens itself, and
/// the connected peers. Its view is the connected peers by the address of their
/// connection.
pub struct PeerSharedState {
    listener_addr: SocketAddr,
    peers: Vec<(SocketAddr, Peer)>,
}

/// Whether one of `entries` is about `addr`.
spec fn has_entry(entries: Seq<(SocketAddr, Peer)>, addr: SocketAddr) -> bool {
    exists|i: int| 0 <= i < entries.len() && (#[trigger] entries[i]).0 == addr
}

/// The index of an entry about `addr`.
spec fn entry_index(entries: Seq<(SocketAddr, Peer)>, addr: SocketAddr) -> int {
    choose|i: int| 0 <= i < entries.len() && (#[trigger] entries[i]).0 == addr
}

/// Whether no two of `entries` are about the same address.
spec fn distinct(entries: Seq<(SocketAddr, Peer)>) -> bool {
    forall|i: int, j: int|
        0 <= i < j < entries.len() ==> (#[trigger] entries[i]).0 != (#[trigger] entries[j]).0
}

/// The peers that `entries` hold, by their address.
spec fn as_map(entries: Seq<(SocketAddr, Peer)>) -> Map<SocketAddr, Peer> {
    Map::new(
        |addr: SocketAddr| has_entry(entries, addr),
        |addr: SocketAddr| entries[entry_index(entries, addr)].1,
    )
}

proof fn lemma_entry(entries: Seq<(SocketAddr, Peer)>, i: int)
    requires
        distinct(entries),
        0 <= i < entries.len(),
    ensures
        has_entry(entries, entries[i].0),
        entry_index(entries, entries[i].0) == i,
        as_map(entries).contains_key(entries[i].0),
        as_map(entries)[entries[i].0] == entries[i].1,
{
}

/// Changing the peers of `before`, but not their addresses, changes the peers under
/// those addresses.
proof fn lemma_same_addresses(before: Seq<(SocketAddr, Peer)>, after: Seq<(SocketAddr, Peer)>)
    requires
        distinct(before),
        after.len() == before.len(),
        forall|i: int| 0 <= i < before.len() ==> (#[trigger] after[i]).0 == before[i].0,
    ensures
        distinct(after),
        as_map(after).dom() == as_map(before).dom(),
        forall|i: int|
            0 <= i < before.len() ==> as_map(after)[(#[trigger] before[i]).0] == after[i].1,
{
    assert forall|i: int, j: int| 0 <= i < j < after.len() implies (#[trigger] after[i]).0 != (
    #[trigger] after[j]).0 by {
        assert(before[i].0 != before[j].0);
    }
    assert forall|a: SocketAddr| has_entry(after, a) == has_entry(before, a) by {
        if has_entry(before, a) {
            assert(after[entry_index(before, a)].0 == a);
        }
        if has_entry(after, a) {
            assert(before[entry_index(after, a)].0 == a);
        }
    }
    assert(as_map(after).dom() =~= as_map(before).dom());
    assert forall|i: int| 0 <= i < before.len() implies as_map(after)[(#[trigger] before[i]).0]
        == after[i].1 by {
        lemma_entry(after, i);
    }
}

/// `entries` hold as many peers as there are entries.
proof fn lemma_count(entries: Seq<(SocketAddr, Peer)>)
    requires
        distinct(entries),
    ensures
        as_map(entries).dom().finite(),
        as_map(entries).dom().len() == entries.len(),
    decreases entries.len(),
{
    if entries.len() == 0 {
        assert(as_map(entries).dom() =~= Set::<SocketAddr>::empty());
    } else {
        let front = entries.drop_last();
        let last = entries.last().0;
        assert forall|i: int, j: int| 0 <= i < j < front.len() implies (#[trigger] front[i]).0 != (
        #[trigger] front[j]).0 by {
            assert(entries[i].0 != entries[j].0);
        }
        lemma_count(front);
        assert(!has_entry(front, last)) by {
            if has_entry(front, last) {
                let i = entry_index(front, last);
                assert(entries[i].0 != entries[entries.len() - 1].0);
            }
        }
        assert forall|a: SocketAddr| has_entry(entries, a) == (has_entry(front, a) || a
            == last) by {
            if has_entry(front, a) {
                let i = entry_index(front, a);
                assert(entries[i].0 == a);
            }
            if has_entry(entries, a) && a != last {
                let i = entry_index(entries, a);
                assert(front[i].0 == a);
            }
            if a == last {
                assert(entries[entries.len() - 1].0 == a);
            }
        }
        assert(as_map(entries).dom() =~= as_map(front).dom().insert(last));
    }
}

/// Whether `order` names each of `addrs` exactly once.
pub open spec fn orders(order: Seq<SocketAddr>, addrs: Set<SocketAddr>) -> bool {
    &&& order.no_duplicates()
    &&& forall|addr: SocketAddr| #[trigger] order.contains(addr) <==> addrs.contains(addr)
}

/// Whether `list` holds, in some order of the peers, the listening address of
/// each peer that does not listen on `own`.
pub open spec fn lists_others(
    peers: Map<SocketAddr, Peer>,
    own: SocketAddr,
    list: Seq<SerializableSocketAddr>,
) -> bool {
    exists|order: Seq<SocketAddr>| #[trigger] lists_in_order(peers, own, list, order)
}

/// Whether `order` names each peer that does not listen on `own`, and `list`
/// holds their listening addresses in that order.
pub open spec fn lists_in_order(
    peers: Map<SocketAddr, Peer>,
    own: SocketAddr,
    list: Seq<SerializableSocketAddr>,
    order: Seq<SocketAddr>,
) -> bool {
    &&& orders(order, others(peers, own))
    &&& list.len() == order.len()
    &&& forall|i: int|
        0 <= i < list.len() ==> #[trigger] list[i] == SerializableSocketAddr::of_sock_addr(
            peers[order[i]].listener_addr,
        )
}

/// The peers that do not listen on `own`.
pub open spec fn others(peers: Map<SocketAddr, Peer>, own: SocketAddr) -> Set<SocketAddr> {
    peers.dom().filter(|addr: SocketAddr| peers[addr].listener_addr != own)
}

/// Whether `after` are the peers `before`, but for what went through their queues.
pub open spec fn same_peers(before: Map<SocketAddr, Peer>, after: Map<SocketAddr, Peer>) -> bool {
    &&& after.dom() == before.dom()
    &&& forall|addr: SocketAddr| #[trigger]
        before.contains_key(addr) ==> after[addr].listener_addr == before[addr].listener_addr
}

/// What sending `bytes` to all peers does and reports. Where it succeeds, each
/// queue took them in once. Else one queue handed them back, and each other took
/// them in once or was not tried.
pub open spec fn broadcast_report(
    before: Map<SocketAddr, Peer>,
    after: Map<SocketAddr, Peer>,
    bytes: Seq<u8>,
    result: Result<(), SendFailure>,
) -> bool {
    &&& same_peers(before, after)
    &&& match result {
        Ok(()) => forall|addr: SocketAddr| #[trigger]
            before.contains_key(addr) ==> handed(
                before[addr].sender,
                after[addr].sender,
                bytes,
                true,
            ),
        Err(failure) => {
            &&& before.contains_key(failure.addr)
            &&& failure.bytes@ == bytes
            &&& handed(before[failure.addr].sender, after[failure.addr].sender, bytes, false)
            &&& forall|addr: SocketAddr| #[trigger]
                before.contains_key(addr) && addr != failure.addr ==> {
                    ||| handed(before[addr].sender, after[addr].sender, bytes, true)
                    ||| after[addr] == before[addr]
                }
        },
    }
}

/// What sending `bytes` to the peer under `addr` does and reports. Where there is
/// one, its queue took them in once or handed them back, as reported; nothing goes
/// to any other.
pub open spec fn unicast_report(
    before: Map<SocketAddr, Peer>,
    after: Map<SocketAddr, Peer>,
    bytes: Seq<u8>,
    addr: SocketAddr,
    result: Result<(), SendFailure>,
) -> bool {
    if before.contains_key(addr) {
        &&& same_peers(before, after)
        &&& handed(before[addr].sender, after[addr].sender, bytes, result is Ok)
        &&& forall|other: SocketAddr| #[trigger]
            before.contains_key(other) && other != addr ==> after[other] == before[other]
        &&& result matches Err(failure) ==> failure.addr == addr && failure.bytes@ == bytes
    } else {
        &&& after == before
        &&& result is Ok
    }
}

impl View for PeerSharedState {
    type V = Map<SocketAddr, Peer>;

    closed spec fn view(&self) -> Map<SocketAddr, Peer> {
        as_map(self.peers@)
    }
}

impl PeerSharedState {
    /// Whether every address has at most one peer.
    pub closed spec fn wf(self) -> bool {
        distinct(self.peers@)
    }

    /// The address on which this peer listens.
    pub closed spec fn listener(self) -> SocketAddr {
        self.listener_addr
    }

    /// A peer that listens on `listener_addr` and knows nobody yet.
    pub fn new(listener_addr: SocketAddr) -> (state: PeerSharedState)
        ensures
            state.wf(),
            state.listener() == listener_addr,
            state@ == Map::<SocketAddr, Peer>::empty(),
    {
        let state = PeerSharedState { listener_addr, peers: Vec::new() };
        assert(state@ =~= Map::<SocketAddr, Peer>::empty());
        state
    }

    /// The address on which this peer listens.
    pub fn listener_addr(&self) -> (addr: SocketAddr)
        ensures
            addr == self.listener(),
    {
        self.listener_addr
    }

    /// The index of the entry about `addr`, if there is one.
    fn position(&self, addr: SocketAddr) -> (index: Option<usize>)
        requires
            self.wf(),
        ensures
            match index {
                Some(i) => i < self.peers@.len() && self.peers@[i as int].0 == addr,
                None => !has_entry(self.peers@, addr),
            },
    {
        let mut i: usize = 0;
        while i < self.peers.len()
            invariant
                i <= self.peers@.len(),
                forall|j: int| 0 <= j < i ==> (#[trigger] self.peers@[j]).0 != addr,
            decreases self.peers@.len() - i,
        {
            if self.peers[i].0 == addr {
                return Some(i);
            }
            i = i + 1;
        }
        None
    }

    /// Puts `peer` under `addr`, and tells whether there was none before.
    pub fn add_peer(&mut self, addr: SocketAddr, peer: Peer) -> (added: bool)
        requires
            old(self).wf(),
        ensures
            final(self).wf(),
            final(self).listener() == old(self).listener(),
            final(self)@ == old(self)@.insert(addr, peer),
            added == !old(self)@.contains_key(addr),
    {
        let ghost before = self.peers@;
        match self.position(addr) {
            Some(i) => {
                self.peers.set(i, (addr, peer));
                proof {
                    let after = self.peers@;
                    assert(distinct(after));
                    lemma_entry(before, i as int);
                    assert forall|a: SocketAddr| has_entry(after, a) == (has_entry(before, a)) by {
                        if has_entry(before, a) {
                            let j = entry_index(before, a);
                            assert(after[j].0 == a);
                        }
                        if has_entry(after, a) {
                            let j = entry_index(after, a);
                            assert(before[j].0 == a);
                        }
                    }
                    assert forall|a: SocketAddr| has_entry(before, a) implies as_map(after)[a]
                        == as_map(before).insert(addr, peer)[a] by {
                        let j = entry_index(before, a);
                        lemma_entry(after, j);
                    }
                    assert(as_map(after) =~= as_map(before).insert(addr, peer));
                }
                false
            },
            None => {
                self.peers.push((addr, peer));
                proof {
                    let after = self.peers@;
                    assert forall|i: int, j: int| 0 <= i < j < after.len() implies (
                    #[trigger] after[i]).0 != (#[trigger] after[j]).0 by {
                        assert(after[i] == before[i]);
                    }
                    lemma_entry(after, before.len() as int);
                    assert forall|a: SocketAddr| has_entry(after, a) == (has_entry(before, a) || a
                        == addr) by {
                        if has_entry(before, a) {
                            let j = entry_index(before, a);
                            assert(after[j].0 == a);
                        }
                        if has_entry(after, a) && a != addr {
                            let j = entry_index(after, a);
                            assert(before[j].0 == a);
                        }
                    }
                    assert forall|a: SocketAddr| has_entry(before, a) implies as_map(after)[a]
                        == as_map(before)[a] by {
                        let j = entry_index(before, a);
                        lemma_entry(after, j);
                    }
                    assert(as_map(after) =~= as_map(before).insert(addr, peer));
                }
                true
            },
        }
    }

    /// Takes away the peer under `addr`, and tells whether there was one.
    pub fn remove_peer(&mut self, addr: SocketAddr) -> (removed: bool)
        requires
            old(self).wf(),
        ensures
            final(self).wf(),
            final(self).listener() == old(self).listener(),
            final(self)@ == old(self)@.remove(addr),
            removed == old(self)@.contains_key(addr),
    {
        let ghost before = self.peers@;
        match self.position(addr) {
            Some(i) => {
                let _ = self.peers.remove(i);
                proof {
                    let after = self.peers@;
                    lemma_entry(before, i as int);
                    assert(after =~= before.remove(i as int));
                    assert forall|a: int, b: int| 0 <= a < b < after.len() implies (
                    #[trigger] after[a]).0 != (#[trigger] after[b]).0 by {
                        let a0 = if a < i {
                            a
                        } else {
                            a + 1
                        };
                        let b0 = if b < i {
                            b
                        } else {
                            b + 1
                        };
                        assert(after[a] == before[a0]);
                        assert(after[b] == before[b0]);
                    }
                    assert forall|a: SocketAddr| has_entry(after, a) == (has_entry(before, a) && a
                        != addr) by {
                        if has_entry(before, a) && a != addr {
                            let j = entry_index(before, a);
                            if j < i {
                                assert(after[j].0 == a);
                            } else {
                                assert(after[j - 1].0 == a);
                            }
                        }
                        if has_entry(after, a) {
                            let j = entry_index(after, a);
                            if j < i {
                                assert(before[j].0 == a);
                            } else {
                                assert(before[j + 1].0 == a);
                            }
                        }
                    }
                    assert forall|a: SocketAddr| has_entry(after, a) implies as_map(after)[a]
                        == as_map(before)[a] by {
                        let j = entry_index(after, a);
                        lemma_entry(after, j);
                        if j < i {
                            lemma_entry(before, j);
                        } else {
                            lemma_entry(before, j + 1);
                        }
                    }
                    assert(as_map(after) =~= as_map(before).remove(addr));
                }
                true
            },
            None => {
                assert(as_map(before) =~= as_map(before).remove(addr));
                false
            },
        }
    }

    /// The connected peers, each with the address of its connection.
    pub fn get_peers(&self) -> (peers: Vec<(&SocketAddr, &Peer)>)
        requires
            self.wf(),
        ensures
            peers@.len() == self@.dom().len(),
            orders(peers@.map_values(|entry: (&SocketAddr, &Peer)| *entry.0), self@.dom()),
            forall|i: int|
                0 <= i < peers@.len() ==> self@.contains_pair(
                    *(#[trigger] peers@[i]).0,
                    *peers@[i].1,
                ),
    {
        let mut peers: Vec<(&SocketAddr, &Peer)> = Vec::new();
        let mut i: usize = 0;
        while i < self.peers.len()
            invariant
                i <= self.peers@.len(),
                peers@.len() == i,
                forall|j: int|
                    0 <= j < i ==> *(#[trigger] peers@[j]).0 == self.peers@[j].0 && *peers@[j].1
                        == self.peers@[j].1,
            decreases self.peers@.len() - i,
        {
            let entry = &self.peers[i];
            peers.push((&entry.0, &entry.1));
            i = i + 1;
        }
        proof {
            lemma_count(self.peers@);
            let order = peers@.map_values(|entry: (&SocketAddr, &Peer)| *entry.0);
            assert forall|j: int| 0 <= j < peers@.len() implies self@.contains_pair(
                *(#[trigger] peers@[j]).0,
                *peers@[j].1,
            ) by {
                lemma_entry(self.peers@, j);
            }
            assert forall|a: int, b: int|
                0 <= a < order.len() && 0 <= b < order.len() && a != b implies order[a]
                != order[b] by {
                assert(order[a] == self.peers@[a].0);
                assert(order[b] == self.peers@[b].0);
            }
            assert forall|addr: SocketAddr| #[trigger] order.contains(
                addr,
            ) == self@.dom().contains(addr) by {
                if order.contains(addr) {
                    let j = choose|j: int| 0 <= j < order.len() && order[j] == addr;
                    assert(self.peers@[j].0 == addr);
                }
                if has_entry(self.peers@, addr) {
                    let j = entry_index(self.peers@, addr);
                    assert(order[j] == addr);
                }
            }
        }
        peers
    }

    /// How many peers are connected.
    pub fn get_peer_count(&self) -> (count: usize)
        requires
            self.wf(),
        ensures
            self@.dom().finite(),
            count == self@.dom().len(),
    {
        proof {
            lemma_count(self.peers@);
        }
        self.peers.len()
    }

    /// Whether there is a peer under `addr`.
    pub fn contains_peer(&self, addr: SocketAddr) -> (found: bool)
        requires
            self.wf(),
        ensures
            found == self@.contains_key(addr),
    {
        match self.position(addr) {
            Some(i) => {
                proof {
                    lemma_entry(self.peers@, i as int);
                }
                true
            },
            None => false,
        }
    }

    /// The listening addresses of all peers that do not listen on
    /// `listener_addr`.
    pub fn peer_addresses(&self, listener_addr: SocketAddr) -> (list: Vec<
        SerializableSocketAddr,
    >)
        requires
            self.wf(),
        ensures
            lists_others(self@, listener_addr, list@),
    {
        let mut list: Vec<SerializableSocketAddr> = Vec::new();
        let ghost mut order: Seq<SocketAddr> = Seq::empty();
        let mut i: usize = 0;
        while i < self.peers.len()
            invariant
                i <= self.peers@.len(),
                self.wf(),
                list@.len() == order.len(),
                order.no_duplicates(),
                forall|addr: SocketAddr| #[trigger]
                    order.contains(addr) <==> exists|k: int|
                        0 <= k < i && (#[trigger] self.peers@[k]).0 == addr
                            && self.peers@[k].1.listener_addr != listener_addr,
                forall|j: int|
                    0 <= j < list@.len() ==> #[trigger] list@[j]
                        == SerializableSocketAddr::of_sock_addr(self@[order[j]].listener_addr),
            decreases self.peers@.len() - i,
        {
            let ghost order_before = order;
            let ghost list_before = list@;
            proof {
                lemma_entry(self.peers@, i as int);
            }
            let peer_listener = self.peers[i].1.listener_addr;
            if peer_listener != listener_addr {
                let ghost addr_i = self.peers@[i as int].0;
                list.push(SerializableSocketAddr::from_sock_addr(peer_listener));
                proof {
                    order = order.push(addr_i);
                    assert(!order_before.contains(addr_i));
                    assert(order[order_before.len() as int] == addr_i);
                    assert forall|addr: SocketAddr| #[trigger]
                        order.contains(addr) == (order_before.contains(addr) || addr == addr_i) by {
                        if order_before.contains(addr) {
                            let j = choose|j: int|
                                0 <= j < order_before.len() && order_before[j] == addr;
                            assert(order[j] == addr);
                        }
                    }
                }
            }
            i = i + 1;
            proof {
                assert forall|addr: SocketAddr| #[trigger]
                    order.contains(addr) <==> exists|k: int|
                        0 <= k < i && (#[trigger] self.peers@[k]).0 == addr
                            && self.peers@[k].1.listener_addr != listener_addr by {
                    let last = i - 1;
                    if order.contains(addr) {
                        if order_before.contains(addr) {
                            let k = choose|k: int|
                                0 <= k < last && (#[trigger] self.peers@[k]).0 == addr
                                    && self.peers@[k].1.listener_addr != listener_addr;
                            assert(0 <= k < i);
                        } else {
                            assert(self.peers@[last].0 == addr);
                        }
                    }
                    if exists|k: int|
                        0 <= k < i && (#[trigger] self.peers@[k]).0 == addr
                            && self.peers@[k].1.listener_addr != listener_addr {
                        let k = choose|k: int|
                            0 <= k < i && (#[trigger] self.peers@[k]).0 == addr
                                && self.peers@[k].1.listener_addr != listener_addr;
                        if k < last {
                            assert(order_before.contains(addr));
                        }
                    }
                }
            }
        }
        proof {
            let addrs = others(self@, listener_addr);
            assert forall|addr: SocketAddr| #[trigger] order.contains(addr) <==> addrs.contains(
                addr,
            ) by {
                if order.contains(addr) {
                    let k = choose|k: int|
                        0 <= k < i && (#[trigger] self.peers@[k]).0 == addr
                            && self.peers@[k].1.listener_addr != listener_addr;
                    lemma_entry(self.peers@, k);
                }
                if addrs.contains(addr) {
                    let k = entry_index(self.peers@, addr);
                    lemma_entry(self.peers@, k);
                    assert(self.peers@[k].0 == addr);
                }
            }
            assert(lists_in_order(self@, listener_addr, list@, order));
        }
        list
    }

    /// The index of the first of `peers`, from `start` on, to which there is no
    /// connection.
    pub fn next_connection(&self, peers: &Vec<SerializableSocketAddr>, start: usize) -> (index:
        Option<usize>)
        requires
            self.wf(),
        ensures
            match index {
                Some(i) => {
                    &&& start <= i < peers@.len()
                    &&& !self@.contains_key(peers@[i as int].sock_addr())
                    &&& forall|j: int|
                        start <= j < i ==> self@.contains_key((#[trigger] peers@[j]).sock_addr())
                },
                None => forall|j: int|
                    start <= j < peers@.len() ==> self@.contains_key(
                        (#[trigger] peers@[j]).sock_addr(),
                    ),
            },
    {
        let mut i: usize = start;
        while i < peers.len()
            invariant
                self.wf(),
                start <= i,
                forall|j: int|
                    start <= j < i && j < peers@.len() ==> self@.contains_key(
                        (#[trigger] peers@[j]).sock_addr(),
                    ),
            decreases peers@.len() - i,
        {
            if !self.contains_peer(peers[i].to_sock_addr()) {
                return Some(i);
            }
            i = i + 1;
        }
        None
    }

    /// Queues `bytes` for every peer, and stops at the first that cannot take
    /// them. Whether the queues still exist is not known here.
    pub fn broadcast(&mut self, bytes: Vec<u8>) -> (result: Result<(), SendFailure>)
        requires
            old(self).wf(),
        ensures
            final(self).wf(),
            final(self).listener() == old(self).listener(),
            broadcast_report(old(self)@, final(self)@, bytes@, result),
    {
        let ghost before = self.peers@;
        let mut i: usize = 0;
        while i < self.peers.len()
            invariant
                i <= self.peers@.len(),
                before == old(self).peers@,
                distinct(before),
                self.listener_addr == old(self).listener_addr,
                self.peers@.len() == before.len(),
                forall|j: int|
                    0 <= j < i ==> {
                        &&& (#[trigger] self.peers@[j]).0 == before[j].0
                        &&& self.peers@[j].1.listener_addr == before[j].1.listener_addr
                        &&& handed(before[j].1.sender, self.peers@[j].1.sender, bytes@, true)
                    },
                forall|j: int| i <= j < before.len() ==> #[trigger] self.peers@[j] == before[j],
            decreases before.len() - i,
        {
            let copy = bytes.clone();
            assert(copy@ =~= bytes@);
            let addr = self.peers[i].0;
            let result = deliver(addr, &mut self.peers[i].1.sender, copy);
            if result.is_err() {
                proof {
                    let after = self.peers@;
                    lemma_same_addresses(before, after);
                    lemma_entry(before, i as int);
                    assert forall|a: SocketAddr| #[trigger] as_map(before).contains_key(a) implies {
                        &&& as_map(after)[a].listener_addr == as_map(before)[a].listener_addr
                        &&& a != addr ==> {
                            ||| handed(
                                as_map(before)[a].sender,
                                as_map(after)[a].sender,
                                bytes@,
                                true,
                            )
                            ||| as_map(after)[a] == as_map(before)[a]
                        }
                    } by {
                        let j = entry_index(before, a);
                        assert(before[j].0 == a);
                        assert(as_map(after)[before[j].0] == after[j].1);
                    }
                }
                return result;
            }
            i = i + 1;
        }
        proof {
            let after = self.peers@;
            lemma_same_addresses(before, after);
            assert forall|a: SocketAddr| #[trigger] as_map(before).contains_key(a) implies {
                &&& as_map(after)[a].listener_addr == as_map(before)[a].listener_addr
                &&& handed(as_map(before)[a].sender, as_map(after)[a].sender, bytes@, true)
            } by {
                let j = entry_index(before, a);
                assert(before[j].0 == a);
                assert(as_map(after)[before[j].0] == after[j].1);
            }
        }
        Ok(())
    }

    /// Queues `bytes` for the peer under `addr`. Where there is none, they are
    /// dropped. Whether the queue still exists is not known here.
    pub fn unicast(&mut self, bytes: Vec<u8>, addr: SocketAddr) -> (result: Result<
        (),
        SendFailure,
    >)
        requires
            old(self).wf(),
        ensures
            final(self).wf(),
            final(self).listener() == old(self).listener(),
            unicast_report(old(self)@, final(self)@, bytes@, addr, result),
    {
        let ghost before = self.peers@;
        match self.position(addr) {
            Some(i) => {
                let result = deliver(addr, &mut self.peers[i].1.sender, bytes);
                proof {
                    let after = self.peers@;
                    lemma_same_addresses(before, after);
                    lemma_entry(before, i as int);
                    assert forall|a: SocketAddr| #[trigger] as_map(before).contains_key(a) implies {
                        &&& as_map(after)[a].listener_addr == as_map(before)[a].listener_addr
                        &&& a != addr ==> as_map(after)[a] == as_map(before)[a]
                    } by {
                        let j = entry_index(before, a);
                        assert(before[j].0 == a);
                        assert(as_map(after)[before[j].0] == after[j].1);
                    }
                }
                result
            },
            None => Ok(()),
        }
    }
}

} // verus!
