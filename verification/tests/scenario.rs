use election_simulator::{ElectionMessage, ElectionPeer, PeerState, Reactor};

type Peer = ElectionPeer<u8, u64, Vec<(u8, ElectionMessage)>>;

fn peer(others: Vec<u8>) -> Peer {
    ElectionPeer {
        state: PeerState::Init { since: 0 },
        peers: others,
        epoch: 0,
        clock: 0,
        transport: Vec::new(),
    }
}

#[test]
fn three_peers_elect_the_first_to_time_out() {
    let (a_id, b_id, c_id) = (1u8, 2u8, 3u8);
    let mut a = peer(vec![b_id, c_id]);
    let mut b = peer(vec![a_id, c_id]);
    let mut c = peer(vec![a_id, b_id]);
    a.clock = 9;
    b.clock = 9;
    c.clock = 9;

    a.tick();
    assert_eq!(a.state, PeerState::Candidate { since: 9, votes: vec![] });
    assert_eq!(a.epoch, 1);
    assert_eq!(
        a.transport,
        vec![
            (b_id, ElectionMessage::RequestVotes { epoch: 1 }),
            (c_id, ElectionMessage::RequestVotes { epoch: 1 }),
        ]
    );

    b.receive(a_id, ElectionMessage::RequestVotes { epoch: 1 });
    c.receive(a_id, ElectionMessage::RequestVotes { epoch: 1 });
    assert_eq!(b.state, PeerState::Follower { leader: a_id, last_ping_rx: 9 });
    assert_eq!(c.state, PeerState::Follower { leader: a_id, last_ping_rx: 9 });
    assert_eq!(b.epoch, 1);
    assert_eq!(c.epoch, 1);
    assert_eq!(b.transport, vec![(a_id, ElectionMessage::GrantVote { epoch: 1 })]);
    assert_eq!(c.transport, vec![(a_id, ElectionMessage::GrantVote { epoch: 1 })]);

    a.transport.clear();
    a.receive(b_id, ElectionMessage::GrantVote { epoch: 1 });
    assert_eq!(a.state, PeerState::Candidate { since: 9, votes: vec![b_id] });
    assert!(a.transport.is_empty());
    a.receive(c_id, ElectionMessage::GrantVote { epoch: 1 });
    assert_eq!(a.state, PeerState::Leader { last_ping_tx: 9 });
    assert_eq!(
        a.transport,
        vec![
            (b_id, ElectionMessage::Ping { epoch: 1 }),
            (c_id, ElectionMessage::Ping { epoch: 1 }),
        ]
    );

    b.transport.clear();
    c.transport.clear();
    b.receive(a_id, ElectionMessage::Ping { epoch: 1 });
    c.receive(a_id, ElectionMessage::Ping { epoch: 1 });
    assert_eq!(b.state, PeerState::Follower { leader: a_id, last_ping_rx: 9 });
    assert_eq!(c.state, PeerState::Follower { leader: a_id, last_ping_rx: 9 });
    assert_eq!(b.epoch, 1);
    assert_eq!(c.epoch, 1);
    assert!(b.transport.is_empty());
    assert!(c.transport.is_empty());
}
