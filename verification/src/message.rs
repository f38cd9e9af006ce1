use vstd::prelude::*;

verus! {

/// The vocabulary that peers exchange. Every message carries the epoch it
/// speaks for and nothing else.
#[derive(Clone, Copy, Debug, PartialEq, Eq, Structural)]
pub enum ElectionMessage {
    /// A candidate asks for a vote in `epoch`.
    RequestVotes { epoch: u64 },
    /// The sender grants its vote for `epoch` to the receiver.
    GrantVote { epoch: u64 },
    /// The heartbeat of the leader of `epoch`.
    Ping { epoch: u64 },
}

impl ElectionMessage {
    /// The epoch the message speaks for.
    pub open spec fn epoch(self) -> u64 {
        match self {
            ElectionMessage::RequestVotes { epoch } => epoch,
            ElectionMessage::GrantVote { epoch } => epoch,
            ElectionMessage::Ping { epoch } => epoch,
        }
    }
}

} // verus!
