use vstd::prelude::*;
use crate::message::ElectionMessage;

verus! {

/// The capability to hand one message to one named peer. Delivery itself is
/// the transport's business; a sender only learns that the message was taken.
pub trait Transport {
    type Peer;

    type Message;

    /// Everything handed to this transport so far, oldest first. Each
    /// transport says what its record is. The record written here, an empty
    /// one, cannot meet the contract of `send`: it is for a transport that
    /// is never verified, which then need not name a record at all.
    open spec fn sent(&self) -> Seq<(Self::Peer, Self::Message)> {
        Seq::empty()
    }

    /// Takes `msg` for `to`: the record of what was sent grows by this one
    /// entry and is otherwise untouched.
    fn send(&mut self, to: &Self::Peer, msg: Self::Message)
        ensures
            final(self).sent() == old(self).sent().push((*to, msg)),
    ;
}

/// A recording transport: the vector is the record.
impl Transport for Vec<(u8, ElectionMessage)> {
    type Peer = u8;

    type Message = ElectionMessage;

    open spec fn sent(&self) -> Seq<(u8, ElectionMessage)> {
        self@
    }

    fn send(&mut self, to: &u8, msg: ElectionMessage) {
        self.push((*to, msg));
    }
}

} // verus!
