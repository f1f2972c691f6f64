use solana_validator::gossip::crds::Crds;
use solana_validator::gossip::message::{
    ContactInfo, GossipMessage, GossipPayload, MessageType, PingData, PongData, PullRequestData, PullResponseData,
    PushData, SocketAddr,
};
use solana_validator::gossip::protocol::GossipProtocol;

fn vote_data(id: u8) -> PushData {
    PushData { id: [id; 32], content: vec![1, 2, 3], kind: "vote".to_string() }
}

fn contact(key: u8, stake: u64) -> ContactInfo {
    ContactInfo {
        pubkey: [key; 32],
        gossip: SocketAddr::localhost(8000),
        tpu: SocketAddr::localhost(8001),
        rpc: SocketAddr::localhost(8002),
        tvu: SocketAddr::localhost(8003),
        stake,
        version: "0.1.0".to_string(),
        wallclock: 1234567890,
    }
}

#[test]
fn test_push_message() {
    let msg = GossipMessage::new([42u8; 32], MessageType::Push, GossipPayload::Push(vote_data(1)));
    assert_eq!(msg.message_type, MessageType::Push);
    assert!(msg.verify_signature());
}

#[test]
fn test_message_hash_deterministic() {
    let msg1 = GossipMessage::new([1u8; 32], MessageType::Ping, GossipPayload::Ping(PingData { nonce: 12345 }));
    let msg2 = GossipMessage::with_timestamp(
        [1u8; 32],
        MessageType::Ping,
        GossipPayload::Ping(PingData { nonce: 12345 }),
        msg1.timestamp,
    );
    assert_eq!(msg1.hash(), msg2.hash());
}

#[test]
fn test_contact_info() {
    let info = ContactInfo {
        pubkey: [1u8; 32],
        gossip: SocketAddr::localhost(8000),
        tpu: SocketAddr::localhost(8001),
        rpc: SocketAddr::localhost(8002),
        tvu: SocketAddr::localhost(8003),
        stake: 1_000_000,
        version: "0.1.0".to_string(),
        wallclock: 1234567890,
    };
    assert_eq!(info.gossip.port, 8000);
    assert_eq!(info.stake, 1_000_000);
}

#[test]
fn test_crds_insert() {
    let mut crds = Crds::default_store();
    let msg = GossipMessage::new([42u8; 32], MessageType::Push, GossipPayload::Push(vote_data(1)));
    assert!(crds.insert_push(&msg));
    assert_eq!(crds.len(), 1);
}

#[test]
fn test_crds_dedup() {
    let mut crds = Crds::default_store();
    let msg = GossipMessage::new([42u8; 32], MessageType::Push, GossipPayload::Push(vote_data(1)));
    assert!(crds.insert_push(&msg));
    assert!(!crds.insert_push(&msg));
    assert_eq!(crds.len(), 1);
}

#[test]
fn test_crds_pruning() {
    let mut crds = Crds::new(10);
    for i in 0..20u8 {
        let data = PushData { id: [i; 32], content: vec![i], kind: "vote".to_string() };
        let msg = GossipMessage::new([42u8; 32], MessageType::Push, GossipPayload::Push(data));
        crds.insert_push(&msg);
    }
    let stats = crds.stats();
    assert!(stats.total_pruned > 0);
    assert!(crds.len() <= 10);
}

#[test]
fn test_contacts() {
    let mut crds = Crds::default_store();
    crds.insert_contact(contact(1, 1_000_000));
    assert_eq!(crds.contacts().len(), 1);
}

fn test_validator() -> [u8; 32] {
    let mut v = [0u8; 32];
    v[0] = 1;
    v
}

#[test]
fn test_handle_ping() {
    let mut protocol = GossipProtocol::new(test_validator(), Crds::default_store());
    let ping_msg = GossipMessage::new([2u8; 32], MessageType::Ping, GossipPayload::Ping(PingData { nonce: 42 }));
    let out = protocol.handle_message(ping_msg);
    assert_eq!(out.len(), 1);
    let pong = &out[0];
    assert_eq!(pong.message_type, MessageType::Pong);
    match &pong.payload {
        GossipPayload::Pong(p) => assert_eq!(p.nonce, 42),
        _ => panic!("expected a pong"),
    }
}

#[test]
fn test_handle_push() {
    let mut protocol = GossipProtocol::new(test_validator(), Crds::default_store());
    let push_data = PushData { id: [1u8; 32], content: vec![1, 2, 3], kind: "vote".to_string() };
    let push_msg = GossipMessage::new([2u8; 32], MessageType::Push, GossipPayload::Push(push_data));
    protocol.handle_message(push_msg);
    assert!(protocol.crds().len() > 0);
}

#[test]
fn test_handle_pull_request() {
    let mut protocol = GossipProtocol::new(test_validator(), Crds::default_store());
    let pull_msg = GossipMessage::new(
        [2u8; 32],
        MessageType::PullRequest,
        GossipPayload::PullRequest(PullRequestData {
            filters: vec![("vote".to_string(), 0)],
            contact_info: contact(2, 1000),
        }),
    );
    let out = protocol.handle_message(pull_msg);
    assert_eq!(out.len(), 1);
    assert_eq!(out[0].message_type, MessageType::PullResponse);
}

// Storing by time: with a fixed clock, entries newer than a time are found
// and older ones are not; kinds are told apart.
#[test]
fn crds_queries_by_time_and_kind() {
    let mut crds = Crds::default_store();
    let a = GossipMessage::new([5u8; 32], MessageType::Push, GossipPayload::Push(vote_data(1)));
    let b = GossipMessage::new(
        [5u8; 32],
        MessageType::Push,
        GossipPayload::Push(PushData { id: [2u8; 32], content: vec![], kind: "contact".to_string() }),
    );
    assert!(crds.insert_push_at(&a, 100));
    assert!(crds.insert_push_at(&b, 200));
    assert_eq!(crds.entries_newer_than(150).len(), 1);
    assert_eq!(crds.entries_newer_than(50).len(), 2);
    assert_eq!(crds.entries_by_kind("vote").len(), 1);
    assert_eq!(crds.entries_by_kind("none").len(), 0);
    assert!(crds.get(&[2u8; 32]).is_some());
    assert!(crds.get(&[3u8; 32]).is_none());
}

// Pruning keeps nine tenths of the maximum, and keeps the newest.
#[test]
fn crds_prunes_oldest() {
    let mut crds = Crds::new(10);
    for i in 0..11u8 {
        let data = PushData { id: [i; 32], content: vec![i], kind: "vote".to_string() };
        let msg = GossipMessage::new([42u8; 32], MessageType::Push, GossipPayload::Push(data));
        crds.insert_push_at(&msg, 1000 + i as u64);
    }
    assert_eq!(crds.len(), 9);
    assert!(crds.get(&[10u8; 32]).is_some());
    assert!(crds.get(&[0u8; 32]).is_none());
    assert_eq!(crds.stats().total_pruned, 2);
}

// A pull request is answered with the entries newer than its filter time.
#[test]
fn pull_request_returns_requested_entries() {
    let mut crds = Crds::default_store();
    let a = GossipMessage::new([5u8; 32], MessageType::Push, GossipPayload::Push(vote_data(7)));
    crds.insert_push_at(&a, 500);
    let mut protocol = GossipProtocol::new(test_validator(), crds);
    let req = |ts: u64| {
        GossipMessage::new(
            [2u8; 32],
            MessageType::PullRequest,
            GossipPayload::PullRequest(PullRequestData {
                filters: vec![("vote".to_string(), ts)],
                contact_info: contact(2, 1),
            }),
        )
    };
    let out = protocol.handle_message(req(100));
    match &out[0].payload {
        GossipPayload::PullResponse(r) => {
            assert_eq!(r.items.len(), 1);
            assert_eq!(r.items[0].id, [7u8; 32]);
            assert_eq!(r.contact_info.pubkey, test_validator());
            assert_eq!(r.contact_info.gossip.port, 8000);
        }
        _ => panic!("expected a pull response"),
    }
    let out = protocol.handle_message(req(600));
    match &out[0].payload {
        GossipPayload::PullResponse(r) => assert_eq!(r.items.len(), 0),
        _ => panic!("expected a pull response"),
    }
}

// A pull response's items and contact are stored.
#[test]
fn pull_response_is_stored() {
    let mut protocol = GossipProtocol::new(test_validator(), Crds::default_store());
    let msg = GossipMessage::new(
        [3u8; 32],
        MessageType::PullResponse,
        GossipPayload::PullResponse(PullResponseData { items: vec![vote_data(8), vote_data(9)], contact_info: contact(3, 5) }),
    );
    let out = protocol.handle_message(msg);
    assert!(out.is_empty());
    assert_eq!(protocol.crds().len(), 2);
    assert_eq!(protocol.crds().contacts().len(), 1);
}

// A ping sent is remembered until its pong arrives.
#[test]
fn ping_pong_round() {
    let mut protocol = GossipProtocol::new(test_validator(), Crds::default_store());
    let ping = protocol.send_ping(contact(4, 0));
    let nonce = match &ping.payload {
        GossipPayload::Ping(p) => p.nonce,
        _ => panic!("expected a ping"),
    };
    let pong = GossipMessage::new([4u8; 32], MessageType::Pong, GossipPayload::Pong(PongData { nonce }));
    let out = protocol.handle_message(pong);
    assert!(out.is_empty());
    assert_eq!(protocol.stats().pongs_received, 1);
    assert_eq!(protocol.stats().messages_handled, 1);
}

// A new push is forwarded to known peers other than its sender and this
// validator; a repeated push is not.
#[test]
fn push_is_forwarded_once() {
    let mut crds = Crds::default_store();
    crds.insert_contact(contact(7, 1));
    crds.insert_contact(contact(2, 1));
    crds.insert_contact(contact(1, 1));
    let mut protocol = GossipProtocol::new([1u8; 32], crds);
    let push = |d: u8| GossipMessage::new([2u8; 32], MessageType::Push, GossipPayload::Push(vote_data(d)));
    let out = protocol.handle_message(push(4));
    assert_eq!(out.len(), 1);
    assert_eq!(out[0].from, [1u8; 32]);
    let out = protocol.handle_message(push(4));
    assert!(out.is_empty());
}

// A pull request carries its filters and this validator's contact.
#[test]
fn send_pull_request_carries_filters() {
    let mut crds = Crds::default_store();
    crds.set_self_info(contact(1, 77));
    let protocol = GossipProtocol::new([1u8; 32], crds);
    let req = protocol.send_pull_request(contact(2, 0), vec![("vote".to_string(), 9)]);
    match &req.payload {
        GossipPayload::PullRequest(r) => {
            assert_eq!(r.filters, vec![("vote".to_string(), 9)]);
            assert_eq!(r.contact_info.stake, 77);
        }
        _ => panic!("expected a pull request"),
    }
}

// The age of a message is how long ago it was stamped, zero if ahead.
#[test]
fn message_age() {
    let m = GossipMessage::with_timestamp([1u8; 32], MessageType::Ping, GossipPayload::Ping(PingData { nonce: 1 }), 1000);
    assert_eq!(m.age_at(1500), 500);
    assert_eq!(m.age_at(900), 0);
}
