use vstd::prelude::*;
use crate::message::ElectionMessage;
use crate::model::{Event, PeerView};

verus! {

/// One message on its way: who sent it, to whom, and what it says.
pub struct Packet<P> {
    pub src: P,
    pub dst: P,
    pub msg: ElectionMessage,
}

/// A set of peers that share one transport. `network` holds every message
/// ever handed to the transport: a message may be delivered late, more than
/// once, out of order or never, but it is delivered as it was sent, with
/// its true sender.
#[verifier::reject_recursive_types(P)]
pub struct Cluster<P> {
    pub members: Map<P, PeerView<P>>,
    pub network: Set<Packet<P>>,
}

/// The packets that `src` puts on the network by sending `sent`.
pub open spec fn packets<P>(src: P, sent: Seq<(P, ElectionMessage)>) -> Set<Packet<P>> {
    Set::new(|pkt: Packet<P>| pkt.src == src && sent.contains((pkt.dst, pkt.msg)))
}

impl<P> Cluster<P> {
    /// Every member's peer list names each other member once, and nobody
    /// else; the members are finitely many.
    pub open spec fn membership(self) -> bool {
        &&& self.members.dom().finite()
        &&& forall|id: P| #[trigger]
            self.members.dom().contains(id) ==> {
                &&& self.members[id].peers.no_duplicates()
                &&& forall|q: P|
                    self.members[id].peers.contains(q) <==> self.members.dom().contains(q) && q
                        != id
            }
    }

    /// Where a cluster starts: nobody has run an election and nothing was
    /// sent.
    pub open spec fn init(self) -> bool {
        &&& self.membership()
        &&& forall|id: P| #[trigger]
            self.members.dom().contains(id) ==> self.members[id].state is Init
        &&& self.network == Set::<Packet<P>>::empty()
    }

    /// Whether member `id` can be put to `event` now: time may pass for it
    /// whenever its epoch allows, and it may be handed any message that was
    /// ever sent to it.
    pub open spec fn enabled(self, id: P, event: Event<P>) -> bool {
        &&& self.members.dom().contains(id)
        &&& match event {
            Event::Receive { from, msg, .. } => self.network.contains(
                Packet { src: from, dst: id, msg },
            ),
            Event::Tick { now } => self.members[id].can_tick(now),
        }
    }

    /// The cluster after member `id` has reacted to `event`: the member is
    /// as its reaction leaves it, and what it sent is on the network.
    pub open spec fn step(self, id: P, event: Event<P>) -> Cluster<P> {
        let reaction = self.members[id].react(event);
        Cluster {
            members: self.members.insert(id, reaction.next),
            network: self.network.union(packets(id, reaction.sent)),
        }
    }

    /// Whether `after` comes from this cluster by one reaction of one member.
    pub open spec fn next(self, after: Cluster<P>) -> bool {
        exists|id: P, event: Event<P>| #[trigger]
            self.enabled(id, event) && after == self.step(id, event)
    }

    /// Whether member `id` is leader for `epoch`.
    pub open spec fn leads(self, id: P, epoch: u64) -> bool {
        &&& self.members.dom().contains(id)
        &&& self.members[id].state is Leader
        &&& self.members[id].epoch == epoch
    }
}

/// A run of a cluster: it starts where nothing has happened yet, and each
/// cluster comes from the one before by one reaction of one member.
pub open spec fn execution<P>(trace: Seq<Cluster<P>>) -> bool {
    &&& trace.len() > 0
    &&& trace[0].init()
    &&& forall|i: int| 0 <= i < trace.len() - 1 ==> #[trigger] trace[i].next(trace[i + 1])
}

} // verus!
