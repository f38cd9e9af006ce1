use vstd::prelude::*;
use crate::message::ElectionMessage;
use crate::model::{majority_threshold, overdue, with_vote, Event, PeerView};
use crate::state::Role;

verus! {

/// No reaction lowers the epoch. It rises only to the epoch of a message
/// that speaks for a later one, or by one when the peer starts an election.
pub proof fn lemma_epoch_never_decreases<P>(peer: PeerView<P>, event: Event<P>)
    requires
        peer.permits(event),
    ensures
        peer.react(event).next.epoch >= peer.epoch,
        peer.react(event).next.epoch > peer.epoch ==> (match event {
            Event::Receive { msg, .. } => peer.react(event).next.epoch == msg.epoch(),
            Event::Tick { .. } => peer.react(event).next.epoch == peer.epoch + 1 && peer.react(
                event,
            ).next.state is Candidate,
        }),
{
}

/// Along any run of events the epoch only grows: what it is after the
/// first `m` events is at most what it is after the first `n`, for any
/// `m` up to `n`.
pub proof fn lemma_epoch_monotonic<P>(peer: PeerView<P>, events: Seq<Event<P>>, m: int, n: int)
    requires
        peer.permits_all(events),
        0 <= m <= n <= events.len(),
    ensures
        peer.after(events.take(m)).epoch <= peer.after(events.take(n)).epoch,
    decreases events.len(),
{
    if n > 0 {
        let next = peer.react(events.first()).next;
        let rest = events.drop_first();
        assert(events.take(n).first() == events.first());
        assert(events.take(n).drop_first() == rest.take(n - 1));
        if m > 0 {
            assert(events.take(m).first() == events.first());
            assert(events.take(m).drop_first() == rest.take(m - 1));
            lemma_epoch_monotonic(next, rest, m - 1, n - 1);
        } else {
            assert(events.take(0).len() == 0);
            assert(rest.take(0).len() == 0);
            lemma_epoch_never_decreases(peer, events.first());
            lemma_epoch_monotonic(next, rest, 0, n - 1);
        }
    }
}

/// The peers on a vote list stay distinct when a grant is added, and the
/// list grows by at most the one peer.
pub proof fn lemma_with_vote_distinct<P>(votes: Seq<P>, from: P)
    requires
        votes.no_duplicates(),
    ensures
        with_vote(votes, from).no_duplicates(),
        with_vote(votes, from).contains(from),
        forall|p: P| votes.contains(p) ==> with_vote(votes, from).contains(p),
        forall|p: P| with_vote(votes, from).contains(p) ==> p == from || votes.contains(p),
        with_vote(votes, from).len() == if votes.contains(from) {
            votes.len()
        } else {
            votes.len() + 1
        },
{
    let after = with_vote(votes, from);
    if !votes.contains(from) {
        assert(after[votes.len() as int] == from);
        assert forall|p: P| votes.contains(p) implies after.contains(p) by {
            let i: int = choose|i: int| 0 <= i < votes.len() && votes[i] == p;
            assert(after[i] == p);
        }
    }
}

/// A reaction keeps the bookkeeping of the role in order.
pub proof fn lemma_well_formed_preserved<P>(peer: PeerView<P>, event: Event<P>)
    requires
        peer.well_formed(),
    ensures
        peer.react(event).next.well_formed(),
{
    if let Role::Candidate { votes, .. } = peer.state {
        if let Event::Receive { from, .. } = event {
            lemma_with_vote_distinct(votes, from);
        }
    }
}

/// A candidate that is granted a vote in its own epoch becomes leader if
/// and only if its votes, the new one counted, exceed half the number of
/// the other peers; otherwise it stays a candidate with the vote recorded.
/// Either way its epoch stays.
pub proof fn lemma_majority_elects<P>(peer: PeerView<P>, from: P, now: u64)
    requires
        peer.state is Candidate,
    ensures
        ({
            let votes = with_vote(peer.state->votes, from);
            let step = peer.receive(from, ElectionMessage::GrantVote { epoch: peer.epoch }, now);
            &&& step.next.state is Leader <==> votes.len() > peer.peers.len() / 2
            &&& step.next.state is Leader ==> step.next.state == Role::<P>::Leader {
                last_ping_tx: now,
            }
            &&& !(step.next.state is Leader) ==> step.next.state == Role::Candidate {
                since: peer.state->Candidate_since,
                votes,
            }
            &&& step.next.epoch == peer.epoch
        }),
{
}

/// A grant that is delivered again counts once: the second delivery
/// changes nothing and sends nothing, whether the first left the peer a
/// candidate or made it leader.
pub proof fn lemma_duplicate_grant_ignored<P>(peer: PeerView<P>, from: P, first: u64, second: u64)
    requires
        peer.state is Candidate,
    ensures
        ({
            let msg = ElectionMessage::GrantVote { epoch: peer.epoch };
            let once = peer.receive(from, msg, first);
            let twice = once.next.receive(from, msg, second);
            &&& twice.next == once.next
            &&& twice.sent == Seq::<(P, ElectionMessage)>::empty()
        }),
{
    let votes = with_vote(peer.state->votes, from);
    if !peer.state->votes.contains(from) {
        assert(votes[peer.state->votes.len() as int] == from);
    }
    assert(with_vote(votes, from) == votes);
}

/// A vote request for an epoch that the peer has left behind changes
/// nothing and sends nothing, the first time and the second.
pub proof fn lemma_stale_request_votes_ignored<P>(
    peer: PeerView<P>,
    from: P,
    epoch: u64,
    first: u64,
    second: u64,
)
    requires
        epoch < peer.epoch,
    ensures
        ({
            let msg = ElectionMessage::RequestVotes { epoch };
            let once = peer.receive(from, msg, first);
            let twice = once.next.receive(from, msg, second);
            &&& once.next == peer
            &&& once.sent == Seq::<(P, ElectionMessage)>::empty()
            &&& twice.next == peer
            &&& twice.sent == Seq::<(P, ElectionMessage)>::empty()
        }),
{
}

/// A peer without other peers that is not leader starts an election at
/// every tick that finds it overdue: it becomes a candidate without votes
/// in the next epoch, and has nobody to ask.
pub proof fn lemma_lone_peer_campaigns<P>(peer: PeerView<P>, now: u64)
    requires
        peer.peers.len() == 0,
        !(peer.state is Leader),
        overdue(peer.since(), now),
        peer.can_tick(now),
    ensures
        peer.tick(now).next == (PeerView {
            state: Role::Candidate { since: now, votes: Seq::empty() },
            epoch: (peer.epoch + 1) as u64,
            peers: peer.peers,
        }),
        peer.tick(now).next.epoch == peer.epoch + 1,
        peer.tick(now).sent == Seq::<(P, ElectionMessage)>::empty(),
{
    assert(peer.tick(now).sent =~= Seq::<(P, ElectionMessage)>::empty());
}

/// A fresh peer without other peers, ticked when it is overdue and again
/// when its candidacy is overdue, is a candidate both times, the second
/// time one epoch higher: time alone never makes it leader.
pub proof fn lemma_lone_peer_reelects<P>(peer: PeerView<P>, first: u64, second: u64)
    requires
        peer.peers.len() == 0,
        peer.state is Init,
        overdue(peer.state->Init_since, first),
        overdue(first, second),
        peer.epoch + 2 <= u64::MAX,
    ensures
        ({
            let once = peer.tick(first);
            let twice = once.next.tick(second);
            &&& once.next.state == Role::<P>::Candidate { since: first, votes: Seq::empty() }
            &&& once.next.epoch == peer.epoch + 1
            &&& twice.next.state == Role::<P>::Candidate { since: second, votes: Seq::empty() }
            &&& twice.next.epoch == peer.epoch + 2
            &&& once.sent.len() == 0
            &&& twice.sent.len() == 0
        }),
{
    lemma_lone_peer_campaigns(peer, first);
    lemma_lone_peer_campaigns(peer.tick(first).next, second);
}

/// Time alone elects nobody: a peer that does not lead and only sees time
/// pass, however often, does not come to lead.
pub proof fn lemma_time_elects_nobody<P>(peer: PeerView<P>, events: Seq<Event<P>>)
    requires
        !(peer.state is Leader),
        forall|i: int| 0 <= i < events.len() ==> events[i] is Tick,
    ensures
        !(peer.after(events).state is Leader),
    decreases events.len(),
{
    if events.len() > 0 {
        assert(events[0] is Tick);
        let rest = events.drop_first();
        assert forall|i: int| 0 <= i < rest.len() implies rest[i] is Tick by {
            assert(rest[i] == events[i + 1]);
        }
        lemma_time_elects_nobody(peer.react(events.first()).next, rest);
    }
}

/// For a candidate without other peers the threshold is zero: the first
/// grant in its own epoch, whoever sends it, makes it leader. Without a
/// grant it stays a candidate.
pub proof fn lemma_lone_candidate_needs_one_grant<P>(peer: PeerView<P>, from: P, now: u64)
    requires
        peer.peers.len() == 0,
        peer.state is Candidate,
    ensures
        majority_threshold(peer.peers) == 0,
        peer.receive(from, ElectionMessage::GrantVote { epoch: peer.epoch }, now).next.state
            == (Role::<P>::Leader { last_ping_tx: now }),
        peer.tick(now).next.state is Candidate,
{
    let before = peer.state->votes;
    if before.contains(from) {
        let i: int = choose|i: int| 0 <= i < before.len() && before[i] == from;
        assert(with_vote(before, from).len() > 0);
    }
}

} // verus!
