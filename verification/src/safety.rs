use vstd::prelude::*;
use vstd::set_lib::{axiom_is_empty_len0, lemma_len_subset, lemma_set_disjoint_lens};
use crate::cluster::{execution, Cluster, Packet};
use crate::laws::lemma_with_vote_distinct;
use crate::message::ElectionMessage;
use crate::model::{broadcast, majority_threshold, with_vote, Event, PeerView};
use crate::state::Role;

verus! {

impl<P> Cluster<P> {
    /// The members whose vote for `epoch` went to `id`.
    pub open spec fn grants(self, id: P, epoch: u64) -> Set<P> {
        Set::new(
            |q: P|
                self.network.contains(
                    Packet { src: q, dst: id, msg: ElectionMessage::GrantVote { epoch } },
                ),
        )
    }

    /// Whether the votes granted to `id` for `epoch` exceed the threshold.
    pub open spec fn won(self, id: P, epoch: u64) -> bool {
        &&& self.members.dom().contains(id)
        &&& self.grants(id, epoch).len() > majority_threshold(self.members[id].peers)
    }

    /// Messages travel between two different members.
    pub open spec fn addresses_sound(self) -> bool {
        forall|pkt: Packet<P>| #[trigger]
            self.network.contains(pkt) ==> {
                &&& self.members.dom().contains(pkt.src)
                &&& self.members.dom().contains(pkt.dst)
                &&& pkt.src != pkt.dst
            }
    }

    /// Nobody has sent a message for an epoch it has not reached.
    pub open spec fn epochs_sound(self) -> bool {
        forall|pkt: Packet<P>| #[trigger]
            self.network.contains(pkt) ==> self.members[pkt.src].epoch >= pkt.msg.epoch()
    }

    /// In one epoch a member either asks for votes or grants one, never
    /// both.
    pub open spec fn candidates_do_not_vote(self) -> bool {
        forall|a: Packet<P>, b: Packet<P>|
            #![trigger self.network.contains(a), self.network.contains(b)]
            self.network.contains(a) && self.network.contains(b) && a.src == b.src
                && a.msg is RequestVotes && b.msg is GrantVote ==> a.msg.epoch() != b.msg.epoch()
    }

    /// In one epoch a member grants its vote to one peer at most.
    pub open spec fn votes_once(self) -> bool {
        forall|a: Packet<P>, b: Packet<P>|
            #![trigger self.network.contains(a), self.network.contains(b)]
            self.network.contains(a) && self.network.contains(b) && a.src == b.src
                && a.msg is GrantVote && a.msg == b.msg ==> a.dst == b.dst
    }

    /// A vote is only granted to a peer that asked for it.
    pub open spec fn grants_answer_requests(self) -> bool {
        forall|pkt: Packet<P>| #[trigger]
            self.network.contains(pkt) && pkt.msg is GrantVote ==> self.network.contains(
                Packet {
                    src: pkt.dst,
                    dst: pkt.src,
                    msg: ElectionMessage::RequestVotes { epoch: pkt.msg.epoch() },
                },
            )
    }

    /// A heartbeat comes from the winner of its epoch.
    pub open spec fn pings_sound(self) -> bool {
        forall|pkt: Packet<P>| #[trigger]
            self.network.contains(pkt) && pkt.msg is Ping ==> self.won(pkt.src, pkt.msg.epoch())
    }

    /// A leader has won its epoch.
    pub open spec fn leaders_sound(self) -> bool {
        forall|id: P| #[trigger]
            self.members.dom().contains(id) && self.members[id].state is Leader ==> self.won(
                id,
                self.members[id].epoch,
            )
    }

    /// What holds of member `id` where it is a candidate: its bookkeeping
    /// is in order, and each of its votes was granted to it for its epoch.
    pub open spec fn candidate_sound(self, id: P) -> bool {
        &&& self.members[id].well_formed()
        &&& self.members[id].state matches Role::Candidate { votes, .. } ==> forall|i: int|
            0 <= i < votes.len() ==> self.network.contains(
                Packet {
                    src: #[trigger] votes[i],
                    dst: id,
                    msg: ElectionMessage::GrantVote { epoch: self.members[id].epoch },
                },
            )
    }

    /// Every candidate counts votes that it was granted.
    pub open spec fn candidates_sound(self) -> bool {
        forall|id: P| #[trigger] self.members.dom().contains(id) ==> self.candidate_sound(id)
    }

    /// What holds of every cluster that a run can reach, and what the
    /// safety of the election rests on.
    pub open spec fn sound(self) -> bool {
        &&& self.membership()
        &&& self.addresses_sound()
        &&& self.epochs_sound()
        &&& self.candidates_do_not_vote()
        &&& self.votes_once()
        &&& self.grants_answer_requests()
        &&& self.pings_sound()
        &&& self.leaders_sound()
        &&& self.candidates_sound()
    }
}

/// Every member has as many peers as there are other members.
proof fn lemma_peer_count<P>(c: Cluster<P>, id: P)
    requires
        c.membership(),
        c.members.dom().contains(id),
    ensures
        c.members[id].peers.len() == c.members.dom().len() - 1,
{
    let peers = c.members[id].peers;
    peers.unique_seq_to_set();
    assert(peers.to_set() =~= c.members.dom().remove(id));
}

/// The voters of a member are members, finitely many, and not the member
/// itself.
proof fn lemma_grants_members<P>(c: Cluster<P>, id: P, epoch: u64)
    requires
        c.membership(),
        c.addresses_sound(),
    ensures
        c.grants(id, epoch).subset_of(c.members.dom().remove(id)),
        c.grants(id, epoch).finite(),
        c.grants(id, epoch).len() <= c.members.dom().len(),
{
    let g = c.grants(id, epoch);
    assert forall|q: P| g.contains(q) implies c.members.dom().remove(id).contains(q) by {
        assert(c.network.contains(
            Packet { src: q, dst: id, msg: ElectionMessage::GrantVote { epoch } },
        ));
    }
    lemma_len_subset(g, c.members.dom().remove(id));
    lemma_len_subset(c.members.dom().remove(id), c.members.dom());
}

/// Two members cannot both win one epoch: their voters would be two
/// disjoint majorities, neither of which holds either winner.
proof fn lemma_one_winner<P>(c: Cluster<P>, a: P, b: P, epoch: u64)
    requires
        c.sound(),
        c.won(a, epoch),
        c.won(b, epoch),
    ensures
        a == b,
{
    if a != b {
        let ga = c.grants(a, epoch);
        let gb = c.grants(b, epoch);
        let grant = |q: P, to: P|
            Packet { src: q, dst: to, msg: ElectionMessage::GrantVote { epoch } };
        let request = |q: P, to: P|
            Packet { src: q, dst: to, msg: ElectionMessage::RequestVotes { epoch } };
        lemma_grants_members(c, a, epoch);
        lemma_grants_members(c, b, epoch);
        lemma_peer_count(c, a);
        lemma_peer_count(c, b);
        let others = c.members.dom().remove(a).remove(b);
        // Each winner has a voter, so each asked for votes and granted none.
        let va = ga.choose();
        let vb = gb.choose();
        assert(ga.contains(va) && gb.contains(vb)) by {
            if ga.len() > 0 && gb.len() > 0 {
                axiom_is_empty_len0(ga);
                axiom_is_empty_len0(gb);
            }
        }
        assert(c.network.contains(grant(va, a)));
        assert(c.network.contains(grant(vb, b)));
        assert(c.network.contains(request(a, va)));
        assert(c.network.contains(request(b, vb)));
        assert forall|q: P| ga.contains(q) || gb.contains(q) implies others.contains(q) by {
            if ga.contains(q) {
                assert(c.network.contains(grant(q, a)));
                assert(q != b);
            } else {
                assert(c.network.contains(grant(q, b)));
                assert(q != a);
            }
        }
        assert(ga.disjoint(gb)) by {
            assert forall|q: P| ga.contains(q) implies !gb.contains(q) by {
                assert(c.network.contains(grant(q, a)));
                if gb.contains(q) {
                    assert(c.network.contains(grant(q, b)));
                }
            }
        }
        lemma_set_disjoint_lens(ga, gb);
        assert((ga + gb).subset_of(others));
        lemma_len_subset(ga + gb, others);
        assert(others.len() == c.members.dom().len() - 2);
        assert(false);
    }
}

/// A broadcast holds the one message once for each peer and nothing else.
proof fn lemma_broadcast_contains<P>(peers: Seq<P>, msg: ElectionMessage, to: P, m: ElectionMessage)
    ensures
        broadcast(peers, msg).contains((to, m)) <==> peers.contains(to) && m == msg,
{
    let all = broadcast(peers, msg);
    if all.contains((to, m)) {
        let i: int = choose|i: int| 0 <= i < all.len() && all[i] == (to, m);
        assert(peers[i] == to);
    }
    if peers.contains(to) && m == msg {
        let i: int = choose|i: int| 0 <= i < peers.len() && peers[i] == to;
        assert(all[i] == (to, m));
    }
}

/// What a message says of the reaction that sent it. It carries the epoch
/// the sender ends in. A vote request goes to a peer and opens a new epoch
/// with a candidacy without votes. A grant answers a request for a later
/// epoch than the sender was in. A heartbeat goes to a peer from a sender
/// that ends as leader in the epoch it was in: it led already, or it was a
/// candidate and the grant just received took its votes over the threshold.
proof fn lemma_sent<P>(p: PeerView<P>, event: Event<P>, to: P, m: ElectionMessage)
    requires
        p.permits(event),
        p.react(event).sent.contains((to, m)),
    ensures
        m.epoch() == p.react(event).next.epoch,
        m is RequestVotes ==> ({
            &&& p.peers.contains(to)
            &&& p.react(event).next.epoch > p.epoch
            &&& p.react(event).next.state matches Role::Candidate { votes, .. } && votes.len() == 0
        }),
        m is GrantVote ==> ({
            &&& p.react(event).next.epoch > p.epoch
            &&& event matches Event::Receive { from, msg, .. } && from == to && msg
                == (ElectionMessage::RequestVotes { epoch: m.epoch() })
        }),
        m is Ping ==> ({
            &&& p.peers.contains(to)
            &&& p.react(event).next.epoch == p.epoch
            &&& p.react(event).next.state is Leader
            &&& p.state is Leader || (p.state matches Role::Candidate { votes, .. }
                && event matches Event::Receive { from, msg, .. } && msg == (
            ElectionMessage::GrantVote { epoch: p.epoch }) && with_vote(votes, from).len()
                > majority_threshold(p.peers))
        }),
{
    lemma_broadcast_contains(p.peers, ElectionMessage::Ping { epoch: p.epoch }, to, m);
    lemma_broadcast_contains(
        p.peers,
        ElectionMessage::RequestVotes { epoch: (p.epoch + 1) as u64 },
        to,
        m,
    );
    let sent = p.react(event).sent;
    let i: int = choose|i: int| 0 <= i < sent.len() && sent[i] == (to, m);
    assert(sent[i] == (to, m));
}

/// What one reaction leaves alone: the members are the same, all but one
/// are as they were, that one keeps its peer list and does not fall back
/// in its epoch, and the network only grows, by what that one sent.
proof fn lemma_step_frame<P>(c: Cluster<P>, id: P, event: Event<P>)
    requires
        c.enabled(id, event),
        c.members[id].permits(event),
    ensures
        c.step(id, event).members.dom() == c.members.dom(),
        c.step(id, event).members[id] == c.members[id].react(event).next,
        forall|q: P| q != id ==> c.step(id, event).members[q] == c.members[q],
        c.step(id, event).members[id].peers == c.members[id].peers,
        c.step(id, event).members[id].epoch >= c.members[id].epoch,
        forall|q: P| #[trigger]
            c.members.dom().contains(q) ==> c.step(id, event).members[q].peers == c.members[q].peers
                && c.step(id, event).members[q].epoch >= c.members[q].epoch,
        forall|pkt: Packet<P>|
            c.step(id, event).network.contains(pkt) <==> c.network.contains(pkt) || (pkt.src == id
                && c.members[id].react(event).sent.contains((pkt.dst, pkt.msg))),
{
    assert(c.step(id, event).members.dom() =~= c.members.dom());
}

/// A reaction keeps the peer lists in order.
proof fn lemma_keeps_membership<P>(c: Cluster<P>, id: P, event: Event<P>)
    requires
        c.sound(),
        c.enabled(id, event),
        c.members[id].permits(event),
    ensures
        c.step(id, event).membership(),
{
    lemma_step_frame(c, id, event);
    let d = c.step(id, event);
    assert forall|q: P| #[trigger] d.members.dom().contains(q) implies {
        &&& d.members[q].peers.no_duplicates()
        &&& forall|r: P|
            d.members[q].peers.contains(r) <==> d.members.dom().contains(r) && r != q
    } by {
        assert(c.members.dom().contains(q));
    }
}

/// A member sends to its peers, or back to a peer that asked.
proof fn lemma_keeps_addresses<P>(c: Cluster<P>, id: P, event: Event<P>)
    requires
        c.sound(),
        c.enabled(id, event),
        c.members[id].permits(event),
    ensures
        c.step(id, event).addresses_sound(),
{
    lemma_step_frame(c, id, event);
    let d = c.step(id, event);
    assert forall|pkt: Packet<P>| #[trigger] d.network.contains(pkt) implies {
        &&& d.members.dom().contains(pkt.src)
        &&& d.members.dom().contains(pkt.dst)
        &&& pkt.src != pkt.dst
    } by {
        if !c.network.contains(pkt) {
            lemma_sent(c.members[id], event, pkt.dst, pkt.msg);
            if let Event::Receive { from, msg, .. } = event {
                assert(c.network.contains(Packet { src: from, dst: id, msg }));
            }
        }
    }
}

/// What a member sends carries the epoch it has reached by then.
proof fn lemma_keeps_epochs<P>(c: Cluster<P>, id: P, event: Event<P>)
    requires
        c.sound(),
        c.enabled(id, event),
        c.members[id].permits(event),
    ensures
        c.step(id, event).epochs_sound(),
{
    lemma_step_frame(c, id, event);
    let d = c.step(id, event);
    assert forall|pkt: Packet<P>| #[trigger]
        d.network.contains(pkt) implies d.members[pkt.src].epoch >= pkt.msg.epoch() by {
        if !c.network.contains(pkt) {
            lemma_sent(c.members[id], event, pkt.dst, pkt.msg);
        } else {
            assert(c.members.dom().contains(pkt.src));
        }
    }
}

/// A vote request opens an epoch that the sender has not reached before,
/// and so does a grant: no epoch sees both from one member.
proof fn lemma_keeps_candidates_do_not_vote<P>(c: Cluster<P>, id: P, event: Event<P>)
    requires
        c.sound(),
        c.enabled(id, event),
        c.members[id].permits(event),
    ensures
        c.step(id, event).candidates_do_not_vote(),
{
    lemma_step_frame(c, id, event);
    let d = c.step(id, event);
    assert forall|a: Packet<P>, b: Packet<P>|
        #![trigger d.network.contains(a), d.network.contains(b)]
        d.network.contains(a) && d.network.contains(b) && a.src == b.src && a.msg is RequestVotes
            && b.msg is GrantVote implies a.msg.epoch() != b.msg.epoch() by {
        if !c.network.contains(a) {
            lemma_sent(c.members[id], event, a.dst, a.msg);
        }
        if !c.network.contains(b) {
            lemma_sent(c.members[id], event, b.dst, b.msg);
        }
    }
}

/// A grant takes its sender into the epoch it is for, so the sender
/// grants no second vote there.
proof fn lemma_keeps_votes_once<P>(c: Cluster<P>, id: P, event: Event<P>)
    requires
        c.sound(),
        c.enabled(id, event),
        c.members[id].permits(event),
    ensures
        c.step(id, event).votes_once(),
{
    lemma_step_frame(c, id, event);
    let d = c.step(id, event);
    assert forall|a: Packet<P>, b: Packet<P>|
        #![trigger d.network.contains(a), d.network.contains(b)]
        d.network.contains(a) && d.network.contains(b) && a.src == b.src && a.msg is GrantVote
            && a.msg == b.msg implies a.dst == b.dst by {
        if !c.network.contains(a) {
            lemma_sent(c.members[id], event, a.dst, a.msg);
        }
        if !c.network.contains(b) {
            lemma_sent(c.members[id], event, b.dst, b.msg);
        }
    }
}

/// A grant is the reaction to a request that was on the network.
proof fn lemma_keeps_grants_answer_requests<P>(c: Cluster<P>, id: P, event: Event<P>)
    requires
        c.sound(),
        c.enabled(id, event),
        c.members[id].permits(event),
    ensures
        c.step(id, event).grants_answer_requests(),
{
    lemma_step_frame(c, id, event);
    let d = c.step(id, event);
    assert forall|pkt: Packet<P>| #[trigger]
        d.network.contains(pkt) && pkt.msg is GrantVote implies d.network.contains(
        Packet {
            src: pkt.dst,
            dst: pkt.src,
            msg: ElectionMessage::RequestVotes { epoch: pkt.msg.epoch() },
        },
    ) by {
        let request = Packet {
            src: pkt.dst,
            dst: pkt.src,
            msg: ElectionMessage::RequestVotes { epoch: pkt.msg.epoch() },
        };
        if !c.network.contains(pkt) {
            lemma_sent(c.members[id], event, pkt.dst, pkt.msg);
        }
        assert(c.network.contains(request));
    }
}

/// Who has won an epoch has won it for good.
proof fn lemma_won_stays<P>(c: Cluster<P>, id: P, event: Event<P>, winner: P, epoch: u64)
    requires
        c.sound(),
        c.enabled(id, event),
        c.members[id].permits(event),
        c.won(winner, epoch),
    ensures
        c.step(id, event).won(winner, epoch),
{
    lemma_step_frame(c, id, event);
    lemma_keeps_membership(c, id, event);
    lemma_keeps_addresses(c, id, event);
    let d = c.step(id, event);
    lemma_grants_members(d, winner, epoch);
    assert forall|q: P| c.grants(winner, epoch).contains(q) implies d.grants(
        winner,
        epoch,
    ).contains(q) by {
        assert(d.network.contains(
            Packet { src: q, dst: winner, msg: ElectionMessage::GrantVote { epoch } },
        ));
    }
    lemma_len_subset(c.grants(winner, epoch), d.grants(winner, epoch));
}

/// A candidate whose votes, with the grant just delivered, exceed the
/// threshold has won its epoch.
proof fn lemma_elected<P>(c: Cluster<P>, id: P, from: P)
    requires
        c.sound(),
        c.members.dom().contains(id),
        c.members[id].state is Candidate,
        c.network.contains(
            Packet {
                src: from,
                dst: id,
                msg: ElectionMessage::GrantVote { epoch: c.members[id].epoch },
            },
        ),
        with_vote(c.members[id].state->votes, from).len() > majority_threshold(
            c.members[id].peers,
        ),
    ensures
        c.won(id, c.members[id].epoch),
{
    let epoch: u64 = c.members[id].epoch;
    let votes = with_vote(c.members[id].state->votes, from);
    assert(c.candidate_sound(id));
    lemma_with_vote_distinct(c.members[id].state->votes, from);
    votes.unique_seq_to_set();
    lemma_grants_members(c, id, epoch);
    assert forall|q: P| votes.to_set().contains(q) implies c.grants(id, epoch).contains(q) by {
        if q != from {
            let old_votes = c.members[id].state->votes;
            assert(old_votes.contains(q));
            let i: int = choose|i: int| 0 <= i < old_votes.len() && old_votes[i] == q;
            assert(c.network.contains(
                Packet { src: old_votes[i], dst: id, msg: ElectionMessage::GrantVote { epoch } },
            ));
        }
    }
    lemma_len_subset(votes.to_set(), c.grants(id, epoch));
}

/// Only a leader sends heartbeats, and a leader has won.
proof fn lemma_keeps_pings<P>(c: Cluster<P>, id: P, event: Event<P>)
    requires
        c.sound(),
        c.enabled(id, event),
        c.members[id].permits(event),
    ensures
        c.step(id, event).pings_sound(),
{
    lemma_step_frame(c, id, event);
    let d = c.step(id, event);
    assert forall|pkt: Packet<P>| #[trigger]
        d.network.contains(pkt) && pkt.msg is Ping implies d.won(pkt.src, pkt.msg.epoch()) by {
        if !c.network.contains(pkt) {
            lemma_sent(c.members[id], event, pkt.dst, pkt.msg);
            if !(c.members[id].state is Leader) {
                lemma_elected(c, id, event->from);
            }
            lemma_won_stays(c, id, event, id, pkt.msg.epoch());
        } else {
            lemma_won_stays(c, id, event, pkt.src, pkt.msg.epoch());
        }
    }
}

/// A member becomes leader by winning, and stays the winner.
proof fn lemma_keeps_leaders<P>(c: Cluster<P>, id: P, event: Event<P>)
    requires
        c.sound(),
        c.enabled(id, event),
        c.members[id].permits(event),
    ensures
        c.step(id, event).leaders_sound(),
{
    lemma_step_frame(c, id, event);
    let d = c.step(id, event);
    assert forall|q: P| #[trigger]
        d.members.dom().contains(q) && d.members[q].state is Leader implies d.won(
        q,
        d.members[q].epoch,
    ) by {
        assert(c.members.dom().contains(q));
        if q == id && !(c.members[id].state is Leader) {
            lemma_elected(c, id, event->from);
        }
        lemma_won_stays(c, id, event, q, d.members[q].epoch);
    }
}

/// A candidate only counts grants that were delivered to it.
proof fn lemma_keeps_candidates<P>(c: Cluster<P>, id: P, event: Event<P>)
    requires
        c.sound(),
        c.enabled(id, event),
        c.members[id].permits(event),
    ensures
        c.step(id, event).candidates_sound(),
{
    lemma_step_frame(c, id, event);
    let d = c.step(id, event);
    assert forall|q: P| #[trigger] d.members.dom().contains(q) implies d.candidate_sound(q) by {
        assert(c.members.dom().contains(q));
        assert(c.candidate_sound(q));
        if let Role::Candidate { votes, .. } = d.members[q].state {
            if q == id {
                if let Role::Candidate { votes: old_votes, .. } = c.members[id].state {
                    if let Event::Receive { from, .. } = event {
                        lemma_with_vote_distinct(old_votes, from);
                    }
                    assert forall|i: int| 0 <= i < votes.len() implies d.network.contains(
                        Packet {
                            src: #[trigger] votes[i],
                            dst: q,
                            msg: ElectionMessage::GrantVote { epoch: d.members[q].epoch },
                        },
                    ) by {
                        if d.members[q].epoch == c.members[q].epoch && i < old_votes.len() {
                            assert(votes[i] == old_votes[i]);
                        }
                    }
                }
            } else {
                assert forall|i: int| 0 <= i < votes.len() implies d.network.contains(
                    Packet {
                        src: #[trigger] votes[i],
                        dst: q,
                        msg: ElectionMessage::GrantVote { epoch: d.members[q].epoch },
                    },
                ) by {
                    assert(c.network.contains(
                        Packet {
                            src: votes[i],
                            dst: q,
                            msg: ElectionMessage::GrantVote { epoch: c.members[q].epoch },
                        },
                    ));
                }
            }
        }
    }
}

/// In a sound cluster whatever is on the network can be delivered: no
/// heartbeat of a leader's own epoch is addressed to it, and no candidate
/// holds a majority.
proof fn lemma_delivery_accepted<P>(c: Cluster<P>, pkt: Packet<P>)
    requires
        c.sound(),
        c.network.contains(pkt),
    ensures
        c.members.dom().contains(pkt.dst),
        c.members[pkt.dst].accepts(pkt.msg),
{
    let to = c.members[pkt.dst];
    assert(c.candidate_sound(pkt.dst));
    if pkt.msg is Ping && pkt.msg.epoch() == to.epoch && to.state is Leader {
        lemma_one_winner(c, pkt.src, pkt.dst, to.epoch);
    }
}

/// A cluster is sound where it starts.
pub proof fn lemma_init_sound<P>(c: Cluster<P>)
    requires
        c.init(),
    ensures
        c.sound(),
{
    assert forall|id: P| #[trigger] c.members.dom().contains(id) implies c.candidate_sound(id) by {}
}

/// A reaction of a member of a sound cluster to an event that the cluster
/// enables is one that the member permits, and leaves the cluster sound.
pub proof fn lemma_step_sound<P>(c: Cluster<P>, id: P, event: Event<P>)
    requires
        c.sound(),
        c.enabled(id, event),
    ensures
        c.step(id, event).sound(),
        c.members[id].permits(event),
{
    if let Event::Receive { from, msg, .. } = event {
        lemma_delivery_accepted(c, Packet { src: from, dst: id, msg });
    }
    lemma_keeps_membership(c, id, event);
    lemma_keeps_addresses(c, id, event);
    lemma_keeps_epochs(c, id, event);
    lemma_keeps_candidates_do_not_vote(c, id, event);
    lemma_keeps_votes_once(c, id, event);
    lemma_keeps_grants_answer_requests(c, id, event);
    lemma_keeps_pings(c, id, event);
    lemma_keeps_leaders(c, id, event);
    lemma_keeps_candidates(c, id, event);
}

/// Every cluster of a run is sound.
pub proof fn lemma_execution_sound<P>(trace: Seq<Cluster<P>>, i: int)
    requires
        execution(trace),
        0 <= i < trace.len(),
    ensures
        trace[i].sound(),
    decreases i,
{
    if i == 0 {
        lemma_init_sound(trace[0]);
    } else {
        lemma_execution_sound(trace, i - 1);
        let c = trace[i - 1];
        assert(c.next(trace[i - 1 + 1]));
        let (id, event) = choose|id: P, event: Event<P>| #[trigger]
            c.enabled(id, event) && trace[i] == c.step(id, event);
        lemma_step_sound(c, id, event);
    }
}

/// Who has won an epoch at one moment of a run has won it at every later
/// one.
proof fn lemma_won_later<P>(trace: Seq<Cluster<P>>, i: int, j: int, id: P, epoch: u64)
    requires
        execution(trace),
        0 <= i <= j < trace.len(),
        trace[i].won(id, epoch),
    ensures
        trace[j].won(id, epoch),
    decreases j - i,
{
    if i < j {
        lemma_won_later(trace, i, j - 1, id, epoch);
        lemma_execution_sound(trace, j - 1);
        let c = trace[j - 1];
        assert(c.next(trace[j - 1 + 1]));
        let (mover, event) = choose|mover: P, event: Event<P>| #[trigger]
            c.enabled(mover, event) && trace[j] == c.step(mover, event);
        lemma_step_sound(c, mover, event);
        lemma_won_stays(c, mover, event, id, epoch);
    }
}

/// At no moment of a run do two members lead in the same epoch.
pub proof fn lemma_one_leader_per_epoch<P>(trace: Seq<Cluster<P>>, i: int, a: P, b: P, epoch: u64)
    requires
        execution(trace),
        0 <= i < trace.len(),
        trace[i].leads(a, epoch),
        trace[i].leads(b, epoch),
    ensures
        a == b,
{
    lemma_one_leader_ever(trace, i, i, a, b, epoch);
}

/// Over a whole run an epoch has one leader at most: who leads in an epoch
/// at one moment is the only member that leads in it at any other.
pub proof fn lemma_one_leader_ever<P>(
    trace: Seq<Cluster<P>>,
    i: int,
    j: int,
    a: P,
    b: P,
    epoch: u64,
)
    requires
        execution(trace),
        0 <= i < trace.len(),
        0 <= j < trace.len(),
        trace[i].leads(a, epoch),
        trace[j].leads(b, epoch),
    ensures
        a == b,
{
    lemma_execution_sound(trace, i);
    lemma_execution_sound(trace, j);
    let last: int = if i <= j {
        j
    } else {
        i
    };
    lemma_won_later(trace, i, last, a, epoch);
    lemma_won_later(trace, j, last, b, epoch);
    lemma_execution_sound(trace, last);
    lemma_one_winner(trace[last], a, b, epoch);
}

/// Every message on the network of a run can be delivered to its
/// addressee: the member exists and accepts the message. The two conditions
/// that would speak of a broken protocol never arise.
pub proof fn lemma_deliveries_accepted<P>(trace: Seq<Cluster<P>>, i: int, pkt: Packet<P>)
    requires
        execution(trace),
        0 <= i < trace.len(),
        trace[i].network.contains(pkt),
    ensures
        trace[i].members.dom().contains(pkt.dst),
        trace[i].members[pkt.dst].accepts(pkt.msg),
{
    lemma_execution_sound(trace, i);
    lemma_delivery_accepted(trace[i], pkt);
}

} // verus!
