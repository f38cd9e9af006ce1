use election_simulator::{ElectionMessage, ElectionPeer, PeerState, Reactor};

type Peer = ElectionPeer<u8, u64, Vec<(u8, ElectionMessage)>>;

fn peer_in(state: PeerState<u8>, epoch: u64, others: Vec<u8>, now: u64) -> Peer {
    ElectionPeer { state, peers: others, epoch, clock: now, transport: Vec::new() }
}

#[test]
fn request_votes_for_a_later_epoch_is_granted() {
    let mut p = peer_in(PeerState::Init { since: 0 }, 3, vec![1, 2], 5);
    p.receive(2, ElectionMessage::RequestVotes { epoch: 7 });
    assert_eq!(p.epoch, 7);
    assert_eq!(p.state, PeerState::Follower { leader: 2, last_ping_rx: 5 });
    assert_eq!(p.transport, vec![(2, ElectionMessage::GrantVote { epoch: 7 })]);
    assert_eq!(p.peers, vec![1, 2]);
    assert_eq!(p.clock, 5);
}

#[test]
fn request_votes_dethrones_a_leader_of_an_earlier_epoch() {
    let mut p = peer_in(PeerState::Leader { last_ping_tx: 4 }, 3, vec![1, 2], 6);
    p.receive(1, ElectionMessage::RequestVotes { epoch: 4 });
    assert_eq!(p.epoch, 4);
    assert_eq!(p.state, PeerState::Follower { leader: 1, last_ping_rx: 6 });
    assert_eq!(p.transport, vec![(1, ElectionMessage::GrantVote { epoch: 4 })]);
}

#[test]
fn request_votes_for_the_own_epoch_is_ignored() {
    let mut p = peer_in(PeerState::Candidate { since: 2, votes: vec![1] }, 3, vec![1, 2, 4, 5], 5);
    p.receive(2, ElectionMessage::RequestVotes { epoch: 3 });
    assert_eq!(p.epoch, 3);
    assert_eq!(p.state, PeerState::Candidate { since: 2, votes: vec![1] });
    assert!(p.transport.is_empty());
}

#[test]
fn request_votes_for_an_earlier_epoch_is_ignored() {
    let mut p = peer_in(PeerState::Follower { leader: 1, last_ping_rx: 2 }, 3, vec![1, 2], 5);
    p.receive(2, ElectionMessage::RequestVotes { epoch: 2 });
    assert_eq!(p.epoch, 3);
    assert_eq!(p.state, PeerState::Follower { leader: 1, last_ping_rx: 2 });
    assert!(p.transport.is_empty());
}

#[test]
fn grant_for_another_epoch_is_ignored() {
    for epoch in [0u64, 2, 4, u64::MAX] {
        let mut p = peer_in(PeerState::Candidate { since: 2, votes: vec![] }, 3, vec![1, 2], 5);
        p.receive(1, ElectionMessage::GrantVote { epoch });
        assert_eq!(p.epoch, 3);
        assert_eq!(p.state, PeerState::Candidate { since: 2, votes: vec![] });
        assert!(p.transport.is_empty());
    }
}

#[test]
fn grant_is_ignored_by_a_peer_that_is_no_candidate() {
    let mut init = peer_in(PeerState::Init { since: 1 }, 3, vec![], 5);
    init.receive(1, ElectionMessage::GrantVote { epoch: 3 });
    assert_eq!(init.state, PeerState::Init { since: 1 });
    assert!(init.transport.is_empty());

    let mut leader = peer_in(PeerState::Leader { last_ping_tx: 1 }, 3, vec![1, 2], 5);
    leader.receive(1, ElectionMessage::GrantVote { epoch: 3 });
    assert_eq!(leader.state, PeerState::Leader { last_ping_tx: 1 });
    assert!(leader.transport.is_empty());

    let following = PeerState::Follower { leader: 2, last_ping_rx: 1 };
    let mut follower = peer_in(following, 3, vec![1, 2], 5);
    follower.receive(1, ElectionMessage::GrantVote { epoch: 3 });
    assert_eq!(follower.state, PeerState::Follower { leader: 2, last_ping_rx: 1 });
    assert!(follower.transport.is_empty());
    assert_eq!(follower.epoch, 3);
}

#[test]
fn grant_below_the_threshold_is_recorded() {
    let mut p = peer_in(PeerState::Candidate { since: 2, votes: vec![] }, 3, vec![1, 2], 5);
    p.receive(2, ElectionMessage::GrantVote { epoch: 3 });
    assert_eq!(p.state, PeerState::Candidate { since: 2, votes: vec![2] });
    assert_eq!(p.epoch, 3);
    assert!(p.transport.is_empty());
}

#[test]
fn a_second_grant_from_one_peer_does_not_count() {
    let mut p = peer_in(PeerState::Candidate { since: 2, votes: vec![] }, 3, vec![1, 2], 5);
    p.receive(2, ElectionMessage::GrantVote { epoch: 3 });
    p.receive(2, ElectionMessage::GrantVote { epoch: 3 });
    p.receive(2, ElectionMessage::GrantVote { epoch: 3 });
    assert_eq!(p.state, PeerState::Candidate { since: 2, votes: vec![2] });
    assert!(p.transport.is_empty());
}

#[test]
fn grant_above_the_threshold_elects_and_pings_every_peer_in_order() {
    let mut p = peer_in(PeerState::Candidate { since: 2, votes: vec![7] }, 3, vec![9, 7, 8], 5);
    p.clock = 6;
    p.receive(8, ElectionMessage::GrantVote { epoch: 3 });
    assert_eq!(p.state, PeerState::Leader { last_ping_tx: 6 });
    assert_eq!(p.epoch, 3);
    assert_eq!(
        p.transport,
        vec![
            (9, ElectionMessage::Ping { epoch: 3 }),
            (7, ElectionMessage::Ping { epoch: 3 }),
            (8, ElectionMessage::Ping { epoch: 3 }),
        ]
    );
}

#[test]
fn ping_of_the_own_epoch_is_followed_without_reply() {
    let mut p = peer_in(PeerState::Follower { leader: 1, last_ping_rx: 2 }, 3, vec![1, 2], 9);
    p.receive(1, ElectionMessage::Ping { epoch: 3 });
    assert_eq!(p.state, PeerState::Follower { leader: 1, last_ping_rx: 9 });
    assert_eq!(p.epoch, 3);
    assert!(p.transport.is_empty());
}

#[test]
fn ping_of_a_later_epoch_is_adopted() {
    let mut init = peer_in(PeerState::Init { since: 0 }, 0, vec![1, 2], 4);
    init.receive(2, ElectionMessage::Ping { epoch: 5 });
    assert_eq!(init.state, PeerState::Follower { leader: 2, last_ping_rx: 4 });
    assert_eq!(init.epoch, 5);
    assert!(init.transport.is_empty());

    let mut leader = peer_in(PeerState::Leader { last_ping_tx: 1 }, 3, vec![1, 2], 4);
    leader.receive(2, ElectionMessage::Ping { epoch: 4 });
    assert_eq!(leader.state, PeerState::Follower { leader: 2, last_ping_rx: 4 });
    assert_eq!(leader.epoch, 4);
    assert!(leader.transport.is_empty());
}

#[test]
fn ping_of_the_own_epoch_ends_a_candidacy() {
    let mut p = peer_in(PeerState::Candidate { since: 2, votes: vec![2] }, 3, vec![1, 2], 7);
    assert!(p.can_receive(&ElectionMessage::Ping { epoch: 3 }));
    p.receive(1, ElectionMessage::Ping { epoch: 3 });
    assert_eq!(p.state, PeerState::Follower { leader: 1, last_ping_rx: 7 });
    assert_eq!(p.epoch, 3);
    assert!(p.transport.is_empty());
}

#[test]
fn ping_of_an_earlier_epoch_is_ignored() {
    let mut p = peer_in(PeerState::Leader { last_ping_tx: 1 }, 3, vec![1, 2], 4);
    p.receive(2, ElectionMessage::Ping { epoch: 2 });
    assert_eq!(p.state, PeerState::Leader { last_ping_tx: 1 });
    assert_eq!(p.epoch, 3);
    assert!(p.transport.is_empty());
}

#[test]
fn receive_at_uses_the_time_it_is_given() {
    let mut p = peer_in(PeerState::Init { since: 0 }, 0, vec![1, 2], 4);
    p.receive_at(2, ElectionMessage::RequestVotes { epoch: 1 }, 77);
    assert_eq!(p.state, PeerState::Follower { leader: 2, last_ping_rx: 77 });
    assert_eq!(p.clock, 4);
    assert_eq!(p.transport, vec![(2, ElectionMessage::GrantVote { epoch: 1 })]);
}

#[test]
fn a_leader_does_not_accept_a_ping_of_its_own_epoch() {
    let p = peer_in(PeerState::Leader { last_ping_tx: 1 }, 3, vec![1, 2], 4);
    assert!(!p.can_receive(&ElectionMessage::Ping { epoch: 3 }));
    assert!(p.can_receive(&ElectionMessage::Ping { epoch: 4 }));
    assert!(p.can_receive(&ElectionMessage::Ping { epoch: 2 }));
    assert!(p.can_receive(&ElectionMessage::RequestVotes { epoch: 3 }));
    assert!(p.can_receive(&ElectionMessage::GrantVote { epoch: 3 }));
}

#[test]
fn a_candidate_with_a_majority_does_not_accept_a_ping_of_its_own_epoch() {
    let p = peer_in(PeerState::Candidate { since: 1, votes: vec![1, 2] }, 3, vec![1, 2], 4);
    assert!(!p.can_receive(&ElectionMessage::Ping { epoch: 3 }));
    assert!(p.can_receive(&ElectionMessage::Ping { epoch: 4 }));
    assert!(p.can_receive(&ElectionMessage::Ping { epoch: 2 }));
    let q = peer_in(PeerState::Candidate { since: 1, votes: vec![1] }, 3, vec![1, 2], 4);
    assert!(q.can_receive(&ElectionMessage::Ping { epoch: 3 }));
}

#[test]
fn init_and_follower_accept_every_message() {
    for epoch in [0u64, 3, 4] {
        let init = peer_in(PeerState::Init { since: 1 }, 3, vec![1, 2], 4);
        let following = PeerState::Follower { leader: 1, last_ping_rx: 1 };
        let follower = peer_in(following, 3, vec![1, 2], 4);
        for msg in [
            ElectionMessage::RequestVotes { epoch },
            ElectionMessage::GrantVote { epoch },
            ElectionMessage::Ping { epoch },
        ] {
            assert!(init.can_receive(&msg));
            assert!(follower.can_receive(&msg));
        }
    }
}
