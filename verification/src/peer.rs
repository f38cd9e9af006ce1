use vstd::prelude::*;
use vstd::laws_eq::obeys_concrete_eq;
use crate::clock::Clock;
use crate::laws::lemma_well_formed_preserved;
use crate::message::ElectionMessage;
use crate::model::{broadcast, overdue, Event, PeerView, LEADER_PING_INTERVAL};
use crate::state::PeerState;
use crate::transport::Transport;

verus! {

/// Something that reacts to messages from peers and to the passage of time.
pub trait Reactor {
    type Peer;

    type Message;

    /// Whether `msg` from `from` may be delivered in this state: anything,
    /// unless the reactor says otherwise.
    open spec fn accepts(&self, from: Self::Peer, msg: Self::Message) -> bool {
        true
    }

    /// Whether time may be advanced in this state: always, unless the
    /// reactor says otherwise.
    open spec fn may_tick(&self) -> bool {
        true
    }

    /// Delivers `msg`, sent by `from`.
    fn receive(&mut self, from: Self::Peer, msg: Self::Message)
        requires
            old(self).accepts(from, msg),
    ;

    /// Tells the reactor that time has passed.
    fn tick(&mut self)
        requires
            old(self).may_tick(),
    ;
}

/// One peer of the election: its role, its epoch, the other peers, and the
/// clock and transport it was given. Its view is what the protocol knows
/// of it; what it hands to its transport is read off the transport.
pub struct ElectionPeer<T, C, X> {
    pub state: PeerState<T>,
    pub peers: Vec<T>,
    pub epoch: u64,
    pub clock: C,
    pub transport: X,
}

impl<T, C, X> View for ElectionPeer<T, C, X> {
    type V = PeerView<T>;

    open spec fn view(&self) -> PeerView<T> {
        PeerView { state: self.state@, epoch: self.epoch, peers: self.peers@ }
    }
}

/// Whether `votes` lists `peer`.
fn contains<P: PartialEq>(votes: &Vec<P>, peer: &P) -> (found: bool)
    requires
        obeys_concrete_eq::<P>(),
    ensures
        found == votes@.contains(*peer),
{
    let mut i: usize = 0;
    while i < votes.len()
        invariant
            i <= votes.len(),
            obeys_concrete_eq::<P>(),
            forall|j: int| 0 <= j < i ==> votes@[j] != *peer,
        decreases votes.len() - i,
    {
        proof {
            reveal(obeys_concrete_eq);
        }
        if votes[i] == *peer {
            return true;
        }
        i += 1;
    }
    false
}

/// Whether at `now` the interval since `since` is overdue; the sum is never
/// formed, so no time is too late to compare.
fn is_overdue(since: u64, now: u64) -> (late: bool)
    ensures
        late == overdue(since, now),
{
    now > LEADER_PING_INTERVAL && since < now - LEADER_PING_INTERVAL
}

impl<T, C, X> ElectionPeer<T, C, X> where
    T: PartialEq,
    C: Clock<Time = u64>,
    X: Transport<Peer = T, Message = ElectionMessage>,
 {
    /// Sends `msg` to every peer, in the order of the peer list.
    fn broadcast(&mut self, msg: ElectionMessage)
        ensures
            final(self).transport.sent() == old(self).transport.sent() + broadcast(
                old(self).peers@,
                msg,
            ),
            final(self).state == old(self).state,
            final(self).peers == old(self).peers,
            final(self).epoch == old(self).epoch,
            final(self).clock == old(self).clock,
    {
        let mut i: usize = 0;
        while i < self.peers.len()
            invariant
                i <= self.peers.len(),
                self.state == old(self).state,
                self.peers == old(self).peers,
                self.epoch == old(self).epoch,
                self.clock == old(self).clock,
                self.transport.sent() == old(self).transport.sent() + broadcast(
                    self.peers@,
                    msg,
                ).subrange(0, i as int),
            decreases self.peers.len() - i,
        {
            self.transport.send(&self.peers[i], msg);
            i += 1;
        }
    }

    /// Whether `msg` may be delivered to this peer as it stands. A caller
    /// that cannot show it beforehand asks here, and stops the peer where the
    /// answer is no: the protocol is broken then.
    pub fn can_receive(&self, msg: &ElectionMessage) -> (ok: bool)
        ensures
            ok == self@.accepts(*msg),
    {
        match msg {
            ElectionMessage::Ping { epoch } => {
                if *epoch == self.epoch {
                    match &self.state {
                        PeerState::Candidate { votes, .. } => votes.len() <= self.peers.len() / 2,
                        PeerState::Leader { .. } => false,
                        PeerState::Init { .. } | PeerState::Follower { .. } => true,
                    }
                } else {
                    true
                }
            },
            ElectionMessage::RequestVotes { .. } | ElectionMessage::GrantVote { .. } => true,
        }
    }

    /// Whether time may be advanced to `now` for this peer as it stands:
    /// only a peer in the last epoch that is due for an election cannot
    /// go on.
    pub fn can_tick(&self, now: u64) -> (ok: bool)
        ensures
            ok == self@.can_tick(now),
    {
        match self.state {
            PeerState::Leader { .. } => true,
            PeerState::Candidate { since, .. }
            | PeerState::Follower { last_ping_rx: since, .. }
            | PeerState::Init { since } => !is_overdue(since, now) || self.epoch < u64::MAX,
        }
    }

    /// Reacts to `msg` from `from`, delivered at `now`.
    pub fn receive_at(&mut self, from: T, msg: ElectionMessage, now: u64)
        requires
            obeys_concrete_eq::<T>(),
            old(self)@.accepts(msg),
        ensures
            final(self)@ == old(self)@.receive(from, msg, now).next,
            final(self).transport.sent() == old(self).transport.sent() + old(self)@.receive(
                from,
                msg,
                now,
            ).sent,
            final(self).clock == old(self).clock,
            final(self).epoch >= old(self).epoch,
            old(self)@.well_formed() ==> final(self)@.well_formed(),
    {
        proof {
            if old(self)@.well_formed() {
                lemma_well_formed_preserved(old(self)@, Event::Receive { from, msg, now });
            }
        }
        match msg {
            ElectionMessage::RequestVotes { epoch } => {
                if epoch > self.epoch {
                    self.epoch = epoch;
                    self.transport.send(&from, ElectionMessage::GrantVote { epoch });
                    self.state = PeerState::Follower { leader: from, last_ping_rx: now };
                }
            },
            ElectionMessage::GrantVote { epoch } => {
                if epoch != self.epoch {
                    return ;
                }
                let become_leader: bool = match &mut self.state {
                    PeerState::Candidate { votes, .. } => {
                        if !contains(votes, &from) {
                            votes.push(from);
                        }
                        votes.len() > self.peers.len() / 2
                    },
                    PeerState::Init { .. }
                    | PeerState::Leader { .. }
                    | PeerState::Follower { .. } => false,
                };
                if become_leader {
                    self.state = PeerState::Leader { last_ping_tx: now };
                    self.broadcast(ElectionMessage::Ping { epoch: self.epoch });
                }
            },
            ElectionMessage::Ping { epoch } => {
                if epoch >= self.epoch {
                    self.epoch = epoch;
                    self.state = PeerState::Follower { leader: from, last_ping_rx: now };
                }
            },
        }
    }

    /// Reacts to the passage of time, observed at `now`.
    pub fn tick_at(&mut self, now: u64)
        requires
            old(self)@.can_tick(now),
        ensures
            final(self)@ == old(self)@.tick(now).next,
            final(self).transport.sent() == old(self).transport.sent() + old(self)@.tick(now).sent,
            final(self).clock == old(self).clock,
            final(self).epoch >= old(self).epoch,
            old(self)@.well_formed() ==> final(self)@.well_formed(),
    {
        proof {
            if old(self)@.well_formed() {
                lemma_well_formed_preserved(old(self)@, Event::Tick { now });
            }
        }
        match self.state {
            PeerState::Leader { last_ping_tx } => {
                if is_overdue(last_ping_tx, now) {
                    self.state = PeerState::Leader { last_ping_tx: now };
                    self.broadcast(ElectionMessage::Ping { epoch: self.epoch });
                }
            },
            PeerState::Candidate { since, .. }
            | PeerState::Follower { last_ping_rx: since, .. }
            | PeerState::Init { since } => {
                if is_overdue(since, now) {
                    self.epoch += 1;
                    self.state = PeerState::Candidate { votes: Vec::new(), since: now };
                    self.broadcast(ElectionMessage::RequestVotes { epoch: self.epoch });
                }
            },
        }
    }
}

impl<T, C, X> Reactor for ElectionPeer<T, C, X> where
    T: PartialEq,
    C: Clock<Time = u64>,
    X: Transport<Peer = T, Message = ElectionMessage>,
 {
    type Peer = T;

    type Message = ElectionMessage;

    /// Peers are told apart by `==`, and `msg` is one that a sound run of
    /// the protocol can deliver.
    open spec fn accepts(&self, from: T, msg: ElectionMessage) -> bool {
        obeys_concrete_eq::<T>() && self@.accepts(msg)
    }

    /// Whatever the clock may read, a new election then finds an epoch
    /// above the current one.
    open spec fn may_tick(&self) -> bool {
        forall|now: u64|
            call_ensures(C::time, (&self.clock,), now) ==> #[trigger] self@.can_tick(now)
    }

    /// Reads the clock and reacts to `msg` from `from` as delivered at the
    /// time read: for some time that the clock can read, the peer and its
    /// transport end as the model says.
    fn receive(&mut self, from: T, msg: ElectionMessage)
        ensures
            (exists|now: u64|
                {
                    &&& call_ensures(C::time, (&old(self).clock,), now)
                    &&& final(self)@ == (#[trigger] old(self)@.receive(from, msg, now)).next
                    &&& final(self).transport.sent() == old(self).transport.sent() + old(
                        self,
                    )@.receive(from, msg, now).sent
                }),
            final(self).clock == old(self).clock,
            final(self).epoch >= old(self).epoch,
            old(self)@.well_formed() ==> final(self)@.well_formed(),
    {
        let now: u64 = self.clock.time();
        self.receive_at(from, msg, now);
    }

    /// Reads the clock and reacts to the passage of time as observed at the
    /// time read: for some time that the clock can read, the peer and its
    /// transport end as the model says.
    fn tick(&mut self)
        ensures
            (exists|now: u64|
                {
                    &&& call_ensures(C::time, (&old(self).clock,), now)
                    &&& final(self)@ == (#[trigger] old(self)@.tick(now)).next
                    &&& final(self).transport.sent() == old(self).transport.sent() + old(
                        self,
                    )@.tick(now).sent
                }),
            final(self).clock == old(self).clock,
            final(self).epoch >= old(self).epoch,
            old(self)@.well_formed() ==> final(self)@.well_formed(),
    {
        let now: u64 = self.clock.time();
        self.tick_at(now);
    }
}

} // verus!
