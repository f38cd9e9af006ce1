use election_simulator::{
    ElectionMessage, ElectionPeer, PeerState, Reactor, LEADER_PING_INTERVAL,
};

type Peer = ElectionPeer<u8, u64, Vec<(u8, ElectionMessage)>>;

fn peer_in(state: PeerState<u8>, epoch: u64, others: Vec<u8>, now: u64) -> Peer {
    ElectionPeer { state, peers: others, epoch, clock: now, transport: Vec::new() }
}

#[test]
fn the_interval_is_eight() {
    assert_eq!(LEADER_PING_INTERVAL, 8);
}

#[test]
fn nothing_happens_before_the_interval_is_over() {
    for now in [0u64, 5, 12, 13] {
        let mut p = peer_in(PeerState::Init { since: 5 }, 2, vec![1, 2], now);
        p.tick();
        assert_eq!(p.state, PeerState::Init { since: 5 });
        assert_eq!(p.epoch, 2);
        assert!(p.transport.is_empty());
    }
}

#[test]
fn an_overdue_init_starts_the_first_election() {
    let mut p = peer_in(PeerState::Init { since: 5 }, 2, vec![4, 6], 14);
    p.tick();
    assert_eq!(p.state, PeerState::Candidate { since: 14, votes: vec![] });
    assert_eq!(p.epoch, 3);
    assert_eq!(
        p.transport,
        vec![
            (4, ElectionMessage::RequestVotes { epoch: 3 }),
            (6, ElectionMessage::RequestVotes { epoch: 3 }),
        ]
    );
}

#[test]
fn an_overdue_follower_starts_an_election() {
    let mut p = peer_in(PeerState::Follower { leader: 4, last_ping_rx: 10 }, 7, vec![4, 6], 19);
    p.tick();
    assert_eq!(p.state, PeerState::Candidate { since: 19, votes: vec![] });
    assert_eq!(p.epoch, 8);
    assert_eq!(
        p.transport,
        vec![
            (4, ElectionMessage::RequestVotes { epoch: 8 }),
            (6, ElectionMessage::RequestVotes { epoch: 8 }),
        ]
    );
}

#[test]
fn a_follower_that_heard_its_leader_in_time_stays() {
    let mut p = peer_in(PeerState::Follower { leader: 4, last_ping_rx: 10 }, 7, vec![4, 6], 18);
    p.tick();
    assert_eq!(p.state, PeerState::Follower { leader: 4, last_ping_rx: 10 });
    assert_eq!(p.epoch, 7);
    assert!(p.transport.is_empty());
}

#[test]
fn an_overdue_candidate_starts_over_and_drops_its_votes() {
    let mut p = peer_in(PeerState::Candidate { since: 10, votes: vec![4] }, 7, vec![4, 6], 100);
    p.tick();
    assert_eq!(p.state, PeerState::Candidate { since: 100, votes: vec![] });
    assert_eq!(p.epoch, 8);
    assert_eq!(
        p.transport,
        vec![
            (4, ElectionMessage::RequestVotes { epoch: 8 }),
            (6, ElectionMessage::RequestVotes { epoch: 8 }),
        ]
    );
}

#[test]
fn an_overdue_leader_pings_and_counts_anew() {
    let mut p = peer_in(PeerState::Leader { last_ping_tx: 10 }, 7, vec![4, 6], 19);
    p.tick();
    assert_eq!(p.state, PeerState::Leader { last_ping_tx: 19 });
    assert_eq!(p.epoch, 7);
    assert_eq!(
        p.transport,
        vec![(4, ElectionMessage::Ping { epoch: 7 }), (6, ElectionMessage::Ping { epoch: 7 })]
    );
    p.clock = 27;
    p.tick();
    assert_eq!(p.state, PeerState::Leader { last_ping_tx: 19 });
    assert_eq!(p.transport.len(), 2);
    p.clock = 28;
    p.tick();
    assert_eq!(p.state, PeerState::Leader { last_ping_tx: 28 });
    assert_eq!(p.transport.len(), 4);
    assert_eq!(p.transport[3], (6, ElectionMessage::Ping { epoch: 7 }));
}

#[test]
fn a_leader_in_time_is_silent() {
    let mut p = peer_in(PeerState::Leader { last_ping_tx: 10 }, 7, vec![4, 6], 18);
    p.tick();
    assert_eq!(p.state, PeerState::Leader { last_ping_tx: 10 });
    assert!(p.transport.is_empty());
}

#[test]
fn tick_at_uses_the_time_it_is_given() {
    let mut p = peer_in(PeerState::Init { since: 0 }, 0, vec![4], 3);
    p.tick_at(8);
    assert_eq!(p.state, PeerState::Init { since: 0 });
    p.tick_at(9);
    assert_eq!(p.state, PeerState::Candidate { since: 9, votes: vec![] });
    assert_eq!(p.epoch, 1);
    assert_eq!(p.clock, 3);
    assert_eq!(p.transport, vec![(4, ElectionMessage::RequestVotes { epoch: 1 })]);
}

#[test]
fn times_near_the_end_of_the_range_are_compared_without_overflow() {
    let late = PeerState::Follower { leader: 4, last_ping_rx: u64::MAX - 3 };
    let mut p = peer_in(late, 7, vec![4], u64::MAX);
    assert!(p.can_tick(u64::MAX));
    p.tick();
    assert_eq!(p.state, PeerState::Follower { leader: 4, last_ping_rx: u64::MAX - 3 });
    assert_eq!(p.epoch, 7);
    assert!(p.transport.is_empty());

    let earlier = PeerState::Follower { leader: 4, last_ping_rx: u64::MAX - 9 };
    let mut q = peer_in(earlier, 7, vec![4], u64::MAX);
    q.tick();
    assert_eq!(q.state, PeerState::Candidate { since: u64::MAX, votes: vec![] });
    assert_eq!(q.epoch, 8);
}

#[test]
fn the_last_epoch_cannot_be_left_by_an_election() {
    let p = peer_in(PeerState::Follower { leader: 4, last_ping_rx: 0 }, u64::MAX, vec![4], 9);
    assert!(p.can_tick(8));
    assert!(!p.can_tick(9));
    let leader = peer_in(PeerState::Leader { last_ping_tx: 0 }, u64::MAX, vec![4], 9);
    assert!(leader.can_tick(9));
    let before = peer_in(PeerState::Init { since: 0 }, u64::MAX - 1, vec![4], 9);
    assert!(before.can_tick(9));
}

#[test]
fn a_leader_in_the_last_epoch_still_pings() {
    let mut p = peer_in(PeerState::Leader { last_ping_tx: 0 }, u64::MAX, vec![4], 9);
    p.tick();
    assert_eq!(p.state, PeerState::Leader { last_ping_tx: 9 });
    assert_eq!(p.epoch, u64::MAX);
    assert_eq!(p.transport, vec![(4, ElectionMessage::Ping { epoch: u64::MAX })]);
}
