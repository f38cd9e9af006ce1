use vstd::prelude::*;
use crate::message::ElectionMessage;
use crate::state::Role;

verus! {

/// The one interval of the protocol: a leader sends a heartbeat when its
/// last one is older than this, and every other peer starts an election when
/// it has heard nothing for longer than this.
pub const LEADER_PING_INTERVAL: u64 = 8;

/// Whether at `now` more than [`LEADER_PING_INTERVAL`] has passed since `since`.
pub open spec fn overdue(since: u64, now: u64) -> bool {
    since + LEADER_PING_INTERVAL < now
}

/// The number of votes a candidate must exceed: half the number of the
/// other peers, rounded down.
pub open spec fn majority_threshold<P>(peers: Seq<P>) -> nat {
    peers.len() / 2
}

/// `msg` addressed to every peer of `peers`, in the order of the list.
pub open spec fn broadcast<P>(peers: Seq<P>, msg: ElectionMessage) -> Seq<(P, ElectionMessage)> {
    Seq::new(peers.len(), |i: int| (peers[i], msg))
}

/// The vote list after a grant from `from`: a peer is listed once.
pub open spec fn with_vote<P>(votes: Seq<P>, from: P) -> Seq<P> {
    if votes.contains(from) {
        votes
    } else {
        votes.push(from)
    }
}

/// What the protocol knows of one peer: its role, its epoch and the list of
/// the other peers.
pub struct PeerView<P> {
    pub state: Role<P>,
    pub epoch: u64,
    pub peers: Seq<P>,
}

/// What a peer can be asked to react to: a message from another peer,
/// delivered at `now`, or the passage of time, observed at `now`.
pub enum Event<P> {
    Receive { from: P, msg: ElectionMessage, now: u64 },
    Tick { now: u64 },
}

/// The outcome of one reaction: the peer afterwards and the messages it
/// sent, in order, each with its addressee.
pub struct Step<P> {
    pub next: PeerView<P>,
    pub sent: Seq<(P, ElectionMessage)>,
}

impl<P> PeerView<P> {
    /// A reaction that changes nothing and sends nothing.
    pub open spec fn ignore(self) -> Step<P> {
        Step { next: self, sent: Seq::empty() }
    }

    /// This peer as a follower of `leader` in `epoch`, last heard at `now`.
    pub open spec fn following(self, leader: P, epoch: u64, now: u64) -> PeerView<P> {
        PeerView { state: Role::Follower { leader, last_ping_rx: now }, epoch, peers: self.peers }
    }

    /// A vote request for a later epoch is granted and its sender followed;
    /// any other is ignored.
    pub open spec fn on_request_votes(self, from: P, epoch: u64, now: u64) -> Step<P> {
        if epoch > self.epoch {
            Step {
                next: self.following(from, epoch, now),
                sent: seq![(from, ElectionMessage::GrantVote { epoch })],
            }
        } else {
            self.ignore()
        }
    }

    /// A grant counts only for a candidate and only in its own epoch. It is
    /// added to the votes unless its sender is already there; once the votes
    /// exceed the threshold the candidate becomes leader and sends its first
    /// heartbeat to every peer.
    pub open spec fn on_grant_vote(self, from: P, epoch: u64, now: u64) -> Step<P> {
        if epoch != self.epoch {
            self.ignore()
        } else {
            match self.state {
                Role::Candidate { since, votes } => {
                    let votes = with_vote(votes, from);
                    if votes.len() > majority_threshold(self.peers) {
                        Step {
                            next: PeerView { state: Role::Leader { last_ping_tx: now }, ..self },
                            sent: broadcast(
                                self.peers,
                                ElectionMessage::Ping { epoch: self.epoch },
                            ),
                        }
                    } else {
                        Step {
                            next: PeerView { state: Role::Candidate { since, votes }, ..self },
                            sent: Seq::empty(),
                        }
                    }
                },
                _ => self.ignore(),
            }
        }
    }

    /// A heartbeat of the own or a later epoch makes its sender the leader;
    /// an older one is ignored. No reply is sent.
    pub open spec fn on_ping(self, from: P, epoch: u64, now: u64) -> Step<P> {
        if epoch >= self.epoch {
            Step { next: self.following(from, epoch, now), sent: Seq::empty() }
        } else {
            self.ignore()
        }
    }

    /// The reaction to `msg` from `from`, delivered at `now`.
    pub open spec fn receive(self, from: P, msg: ElectionMessage, now: u64) -> Step<P> {
        match msg {
            ElectionMessage::RequestVotes { epoch } => self.on_request_votes(from, epoch, now),
            ElectionMessage::GrantVote { epoch } => self.on_grant_vote(from, epoch, now),
            ElectionMessage::Ping { epoch } => self.on_ping(from, epoch, now),
        }
    }

    /// The time from which this peer counts: its last heartbeat sent or
    /// received, or the start of its candidacy or of its life.
    pub open spec fn since(self) -> u64 {
        match self.state {
            Role::Init { since } => since,
            Role::Candidate { since, .. } => since,
            Role::Leader { last_ping_tx } => last_ping_tx,
            Role::Follower { last_ping_rx, .. } => last_ping_rx,
        }
    }

    /// The reaction to the passage of time, observed at `now`. Nothing
    /// happens until the interval is overdue. Then a leader sends a heartbeat
    /// to every peer and counts anew from `now`; any other peer moves to the
    /// next epoch, becomes a candidate without votes and asks every peer for
    /// its vote.
    pub open spec fn tick(self, now: u64) -> Step<P> {
        if !overdue(self.since(), now) {
            self.ignore()
        } else if self.state is Leader {
            Step {
                next: PeerView { state: Role::Leader { last_ping_tx: now }, ..self },
                sent: broadcast(self.peers, ElectionMessage::Ping { epoch: self.epoch }),
            }
        } else {
            let epoch: u64 = (self.epoch + 1) as u64;
            Step {
                next: PeerView {
                    state: Role::Candidate { since: now, votes: Seq::empty() },
                    epoch,
                    peers: self.peers,
                },
                sent: broadcast(self.peers, ElectionMessage::RequestVotes { epoch }),
            }
        }
    }

    /// Whether the bookkeeping of the role is in order: the votes of a
    /// candidate name each voter once, and they do not exceed the threshold,
    /// for with more votes it would lead.
    pub open spec fn well_formed(self) -> bool {
        self.state matches Role::Candidate { votes, .. } ==> votes.no_duplicates() && votes.len()
            <= majority_threshold(self.peers)
    }

    /// Whether this peer holds more votes than a candidate ever may.
    pub open spec fn holds_majority(self) -> bool {
        self.state matches Role::Candidate { votes, .. } && votes.len() > majority_threshold(
            self.peers,
        )
    }

    /// Whether `msg` can arrive in a sound run of the protocol. A heartbeat
    /// of the peer's own epoch cannot reach a leader, which is the only
    /// sender of heartbeats in its epoch, nor a candidate that holds a
    /// majority. Everything else is accepted.
    pub open spec fn accepts(self, msg: ElectionMessage) -> bool {
        msg matches ElectionMessage::Ping { epoch } && epoch == self.epoch ==> !(self.state
            is Leader) && !self.holds_majority()
    }

    /// Whether a tick at `now` stays within the range of epochs: a new
    /// election needs an epoch above the current one.
    pub open spec fn can_tick(self, now: u64) -> bool {
        overdue(self.since(), now) && !(self.state is Leader) ==> self.epoch < u64::MAX
    }

    /// Whether `event` may be put to this peer.
    pub open spec fn permits(self, event: Event<P>) -> bool {
        match event {
            Event::Receive { msg, .. } => self.accepts(msg),
            Event::Tick { now } => self.can_tick(now),
        }
    }

    /// The reaction to `event`.
    pub open spec fn react(self, event: Event<P>) -> Step<P> {
        match event {
            Event::Receive { from, msg, now } => self.receive(from, msg, now),
            Event::Tick { now } => self.tick(now),
        }
    }

    /// Whether `events` may be put to this peer one after the other.
    pub open spec fn permits_all(self, events: Seq<Event<P>>) -> bool
        decreases events.len(),
    {
        events.len() > 0 ==> self.permits(events.first()) && self.react(
            events.first(),
        ).next.permits_all(events.drop_first())
    }

    /// The peer after it has reacted to `events` one after the other.
    pub open spec fn after(self, events: Seq<Event<P>>) -> PeerView<P>
        decreases events.len(),
    {
        if events.len() == 0 {
            self
        } else {
            self.react(events.first()).next.after(events.drop_first())
        }
    }
}

} // verus!
