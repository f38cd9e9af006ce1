use vstd::prelude::*;

verus! {

/// The role a peer plays, with the bookkeeping that belongs to the role.
#[derive(Debug, PartialEq, Eq)]
pub enum PeerState<P> {
    /// No election has run yet; `since` is the time the peer was created.
    Init { since: u64 },
    /// Campaigning since `since`. `votes` holds the peers that granted their
    /// vote in the current epoch; the candidate's own vote is not stored.
    Candidate { since: u64, votes: Vec<P> },
    /// Elected for the current epoch; `last_ping_tx` is the time of the last
    /// heartbeat broadcast.
    Leader { last_ping_tx: u64 },
    /// Following `leader`; `last_ping_rx` is the time the peer last granted
    /// it a vote or heard its heartbeat.
    Follower { leader: P, last_ping_rx: u64 },
}

/// The mathematical value of a [`PeerState`]: the same four roles, with the
/// vote list as a sequence.
pub enum Role<P> {
    Init { since: u64 },
    Candidate { since: u64, votes: Seq<P> },
    Leader { last_ping_tx: u64 },
    Follower { leader: P, last_ping_rx: u64 },
}

impl<P> View for PeerState<P> {
    type V = Role<P>;

    open spec fn view(&self) -> Role<P> {
        match *self {
            PeerState::Init { since } => Role::Init { since },
            PeerState::Candidate { since, votes } => Role::Candidate { since, votes: votes@ },
            PeerState::Leader { last_ping_tx } => Role::Leader { last_ping_tx },
            PeerState::Follower { leader, last_ping_rx } => Role::Follower { leader, last_ping_rx },
        }
    }
}

} // verus!
