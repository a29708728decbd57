use brb_node_qp2p::actor::ActorId;
use brb_node_qp2p::node::BrbNode;
use ed25519_dalek::PublicKey;

fn invalid_key() -> ActorId {
    for b in 0..=255u8 {
        let mut key = [b; 32];
        key[0] = 2;
        if PublicKey::from_bytes(&key).is_err() {
            return ActorId { key };
        }
    }
    panic!("no invalid key among the candidates");
}

#[test]
fn new_node_is_alone_and_empty() {
    let node = BrbNode::new();
    assert!(node.peers().is_empty());
    assert!(node.read().is_empty());
    assert_eq!(node.actor().key.len(), 32);
}

#[test]
fn two_new_nodes_have_different_identities() {
    assert_ne!(BrbNode::new().actor(), BrbNode::new().actor());
}

#[test]
fn trust_and_untrust_change_the_voting_members() {
    let mut node = BrbNode::new();
    let other = BrbNode::new().actor();
    let me = node.actor();
    node.trust_peer(&other);
    assert_eq!(node.peers(), vec![other]);
    node.trust_peer(&me);
    let mut both = vec![me, other];
    both.sort_by(|x, y| x.key.cmp(&y.key));
    assert_eq!(node.peers(), both);
    node.untrust_peer(&other);
    assert_eq!(node.peers(), vec![me]);
    assert_eq!(node.actor(), me);
}

#[test]
fn invalid_key_is_not_trusted() {
    let mut node = BrbNode::new();
    node.trust_peer(&invalid_key());
    assert!(node.peers().is_empty());
    assert!(node.request_join(&invalid_key()).is_empty());
    assert!(node.anti_entropy(&invalid_key()).is_none());
}

#[test]
fn join_votes_come_from_this_node() {
    let mut node = BrbNode::new();
    let me = node.actor();
    let other = BrbNode::new().actor();
    node.trust_peer(&me);
    let votes = node.request_join(&other);
    assert!(!votes.is_empty());
    assert!(votes.iter().all(|p| p.source == me));
}

#[test]
fn lone_member_add_is_applied_at_once_and_sends_nothing() {
    let mut node = BrbNode::new();
    let me = node.actor();
    node.trust_peer(&me);
    let packets = node.add(7);
    assert!(packets.iter().all(|p| p.source == me && p.dest != me));
    assert_eq!(node.read(), vec![7]);
    assert_eq!(node.peers(), vec![me]);
}

#[test]
fn add_with_another_member_asks_it_to_validate() {
    let mut node = BrbNode::new();
    let me = node.actor();
    let other = BrbNode::new().actor();
    node.trust_peer(&me);
    node.trust_peer(&other);
    let packets = node.add(7);
    assert_eq!(packets.len(), 1);
    assert_eq!(packets[0].source, me);
    assert_eq!(packets[0].dest, other);
}

#[test]
fn anti_entropy_request_goes_from_this_node_to_the_peer() {
    let mut node = BrbNode::new();
    let other = BrbNode::new().actor();
    let p = node.anti_entropy(&other).expect("a valid key");
    assert_eq!(p.source, node.actor());
    assert_eq!(p.dest, other);
}

#[test]
fn untrust_undoes_trust_and_trust_undoes_untrust() {
    let mut node = BrbNode::new();
    let me = node.actor();
    let other = BrbNode::new().actor();
    node.trust_peer(&me);
    let before = node.peers();
    node.trust_peer(&other);
    node.untrust_peer(&other);
    assert_eq!(node.peers(), before);
    node.untrust_peer(&me);
    node.trust_peer(&me);
    assert_eq!(node.peers(), before);
    assert_eq!(node.actor(), me);
}
