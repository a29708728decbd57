use brb_node_qp2p::actor::ActorId;
use brb_node_qp2p::message::{command_for, NetworkMsg, Packet, PeerAddr, RouterCmd};
use brb_node_qp2p::node::{packets_or_nothing, BrbNode};
use brb_node_qp2p::router::{Effect, Router};

fn actor(first: [u8; 3], fill: u8) -> ActorId {
    let mut key = [fill; 32];
    key[0] = first[0];
    key[1] = first[1];
    key[2] = first[2];
    ActorId { key }
}

fn addr(port: u16) -> PeerAddr {
    PeerAddr::V4 { octets: [127, 0, 0, 1], port }
}

fn port_of(a: &PeerAddr) -> u16 {
    match a {
        PeerAddr::V4 { port, .. } => *port,
        PeerAddr::V6 { port, .. } => *port,
    }
}

fn packet(source: &ActorId, dest: &ActorId, body: &[u8]) -> Packet {
    Packet { source: *source, dest: *dest, body: body.to_vec() }
}

fn printed(effects: &[Effect]) -> Vec<String> {
    effects
        .iter()
        .filter_map(|e| match e {
            Effect::Print(s) => Some(s.clone()),
            _ => None,
        })
        .collect()
}

fn sends(effects: &[Effect]) -> Vec<(NetworkMsg, u16)> {
    effects
        .iter()
        .filter_map(|e| match e {
            Effect::Send { msg, addr } => Some((msg.clone(), port_of(addr))),
            _ => None,
        })
        .collect()
}

#[test]
fn new_router_knows_nothing() {
    let r = Router::new(addr(1000));
    assert!(r.peer_table().is_empty());
    assert!(r.unacked_packets().is_empty());
    assert_eq!(port_of(&r.addr()), 1000);
}

#[test]
fn packet_for_unknown_peer_is_not_sent() {
    let mut r = Router::new(addr(1000));
    let a = actor([1, 1, 1], 0);
    let b = actor([2, 2, 2], 0);
    let effects = r.deliver_packet(packet(&a, &b, b"x"));
    assert!(effects.is_empty());
    assert!(r.unacked_packets().is_empty());
}

#[test]
fn packet_for_known_peer_is_sent_and_awaited() {
    let mut r = Router::new(addr(1000));
    let a = actor([1, 1, 1], 0);
    let b = actor([2, 2, 2], 0);
    r.add_peer(b, addr(2000));
    let p = packet(&a, &b, b"x");
    let effects = r.deliver_packet(p.clone());
    let s = sends(&effects);
    assert_eq!(s.len(), 1);
    assert!(matches!(&s[0].0, NetworkMsg::Packet(q) if *q == p));
    assert_eq!(s[0].1, 2000);
    assert_eq!(r.unacked_packets(), &vec![p]);
}

#[test]
fn ack_removes_first_equal_packet_only() {
    let mut r = Router::new(addr(1000));
    let a = actor([1, 1, 1], 0);
    let b = actor([2, 2, 2], 0);
    r.add_peer(b, addr(2000));
    let p = packet(&a, &b, b"p");
    let q = packet(&a, &b, b"q");
    r.deliver_packet(p.clone());
    r.deliver_packet(q.clone());
    r.deliver_packet(p.clone());
    r.acked(&p);
    assert_eq!(r.unacked_packets(), &vec![q.clone(), p.clone()]);
    r.acked(&packet(&a, &b, b"other"));
    assert_eq!(r.unacked_packets(), &vec![q.clone(), p.clone()]);
    r.acked(&p);
    r.acked(&q);
    assert!(r.unacked_packets().is_empty());
}

#[test]
fn ack_undoes_delivery() {
    let mut r = Router::new(addr(1000));
    let a = actor([1, 1, 1], 0);
    let b = actor([2, 2, 2], 0);
    r.add_peer(b, addr(2000));
    r.deliver_packet(packet(&a, &b, b"old"));
    let before = r.unacked_packets().clone();
    let p = packet(&a, &b, b"new");
    r.deliver_packet(p.clone());
    r.acked(&p);
    assert_eq!(r.unacked_packets(), &before);
}

#[test]
fn new_peer_is_introduced_to_known_peers_once() {
    let mut r = Router::new(addr(1000));
    let a = actor([1, 1, 1], 0);
    let b = actor([2, 2, 2], 0);
    let c = actor([3, 3, 3], 0);
    assert!(r.add_peer(a, addr(1000)).is_empty());
    let e = r.add_peer(b, addr(2000));
    let s = sends(&e);
    assert_eq!(s.len(), 1);
    assert!(matches!(&s[0].0, NetworkMsg::Peer(x, ax) if *x == a && port_of(ax) == 1000));
    assert_eq!(s[0].1, 2000);
    let e = r.add_peer(c, addr(3000));
    let s = sends(&e);
    assert_eq!(s.len(), 2);
    assert!(matches!(&s[0].0, NetworkMsg::Peer(x, _) if *x == a));
    assert!(matches!(&s[1].0, NetworkMsg::Peer(x, _) if *x == b));
    assert!(s.iter().all(|(_, port)| *port == 3000));
    assert_eq!(r.peer_table().len(), 3);
}

#[test]
fn add_peer_twice_changes_nothing() {
    let mut r = Router::new(addr(1000));
    let a = actor([1, 1, 1], 0);
    r.add_peer(a, addr(1000));
    let e = r.add_peer(a, addr(4444));
    assert!(e.is_empty());
    assert_eq!(r.peer_table().len(), 1);
    assert_eq!(port_of(&r.lookup(&a).unwrap()), 1000);
}

#[test]
fn retry_resends_in_order_and_keeps_waiting() {
    let mut r = Router::new(addr(1000));
    let a = actor([1, 1, 1], 0);
    let b = actor([2, 2, 2], 0);
    let c = actor([3, 3, 3], 0);
    r.add_peer(b, addr(2000));
    r.add_peer(c, addr(3000));
    let p = packet(&a, &b, b"1");
    let q = packet(&a, &c, b"2");
    r.deliver_packet(p.clone());
    r.deliver_packet(q.clone());
    let first = r.retry();
    let s = sends(&first);
    assert_eq!(s.len(), 2);
    assert!(matches!(&s[0].0, NetworkMsg::Packet(x) if *x == p));
    assert_eq!(s[0].1, 2000);
    assert!(matches!(&s[1].0, NetworkMsg::Packet(x) if *x == q));
    assert_eq!(s[1].1, 3000);
    assert_eq!(r.unacked_packets(), &vec![p.clone(), q.clone()]);
    let second = r.retry();
    assert_eq!(sends(&second).len(), 2);
    assert_eq!(r.unacked_packets(), &vec![p, q]);
}

#[test]
fn say_hello_announces_self_at_own_address() {
    let r = Router::new(addr(1000));
    let me = actor([9, 9, 9], 0);
    let e = r.say_hello(&me, addr(5000));
    let s = sends(&e);
    assert_eq!(s.len(), 1);
    assert!(matches!(&s[0].0, NetworkMsg::Peer(x, ax) if *x == me && port_of(ax) == 1000));
    assert_eq!(s[0].1, 5000);
}

#[test]
fn ack_goes_back_to_known_source_only() {
    let mut r = Router::new(addr(1000));
    let a = actor([1, 1, 1], 0);
    let b = actor([2, 2, 2], 0);
    let p = packet(&a, &b, b"z");
    assert!(r.ack_packet(&p).is_empty());
    r.add_peer(a, addr(2000));
    let s = sends(&r.ack_packet(&p));
    assert_eq!(s.len(), 1);
    assert!(matches!(&s[0].0, NetworkMsg::Ack(x) if *x == p));
    assert_eq!(s[0].1, 2000);
}

#[test]
fn resolve_me_and_unique_prefix() {
    let mut r = Router::new(addr(1000));
    let me = actor([0xaa, 0, 0], 0);
    let a = actor([0x87, 0x7d, 0xca], 0);
    let b = actor([0x87, 0x7e, 0x01], 0);
    r.add_peer(a, addr(2000));
    r.add_peer(b, addr(3000));
    let (found, notes) = r.resolve_actor(&me, &"me".to_string());
    assert_eq!(found, Some(me));
    assert!(notes.is_empty());
    let (found, notes) = r.resolve_actor(&me, &"i:877d".to_string());
    assert_eq!(found, Some(a));
    assert!(notes.is_empty());
    let (found, _) = r.resolve_actor(&me, &"i:877e01".to_string());
    assert_eq!(found, Some(b));
}

#[test]
fn resolve_ambiguous_lists_candidates() {
    let mut r = Router::new(addr(1000));
    let me = actor([0xaa, 0, 0], 0);
    let a = actor([0x87, 0x7d, 0xca], 0);
    let b = actor([0x87, 0x7e, 0x01], 0);
    r.add_peer(a, addr(2000));
    r.add_peer(b, addr(3000));
    let (found, notes) = r.resolve_actor(&me, &"i:87".to_string());
    assert_eq!(found, None);
    assert_eq!(
        printed(&notes),
        vec![
            "Ambiguous actor id, more than one actor matches:".to_string(),
            "i:877dca".to_string(),
            "i:877e01".to_string(),
        ]
    );
}

#[test]
fn resolve_unknown_says_so() {
    let mut r = Router::new(addr(1000));
    let me = actor([0xaa, 0, 0], 0);
    r.add_peer(actor([0x87, 0x7d, 0xca], 0), addr(2000));
    let (found, notes) = r.resolve_actor(&me, &"i:99".to_string());
    assert_eq!(found, None);
    assert_eq!(printed(&notes), vec!["No actors with that actor id".to_string()]);
    let (found, _) = r.resolve_actor(&me, &"mine".to_string());
    assert_eq!(found, None);
}

#[test]
fn listing_is_sorted_union_with_flags() {
    let mut r = Router::new(addr(1000));
    let me = actor([0x50, 0, 0], 0);
    let a = actor([0x90, 0, 0], 0);
    let b = actor([0x10, 0, 0], 0);
    let v = actor([0x30, 0, 0], 0);
    r.add_peer(me, addr(1000));
    r.add_peer(a, addr(2000));
    r.add_peer(b, addr(3000));
    let voting = vec![v, me];
    let effects = r.list_peers(&me, &voting);
    let lines: Vec<(ActorId, Option<u16>, bool, bool)> = effects
        .iter()
        .map(|e| match e {
            Effect::Listing(l) => (l.actor, l.addr.map(|x| port_of(&x)), l.voting, l.is_self),
            _ => panic!("not a listing line"),
        })
        .collect();
    assert_eq!(
        lines,
        vec![
            (b, Some(3000), false, false),
            (v, None, true, false),
            (me, Some(1000), true, true),
            (a, Some(2000), false, false),
        ]
    );
}

#[test]
fn network_messages_become_commands() {
    let a = actor([1, 1, 1], 0);
    let p = packet(&a, &a, b"m");
    assert!(matches!(command_for(NetworkMsg::Peer(a, addr(7))), RouterCmd::AddPeer(x, ax) if x == a && port_of(&ax) == 7));
    assert!(matches!(command_for(NetworkMsg::Packet(p.clone())), RouterCmd::Apply(x) if x == p));
    assert!(matches!(command_for(NetworkMsg::Ack(p.clone())), RouterCmd::Acked(x) if x == p));
}

#[test]
fn packets_compare_by_all_fields() {
    let a = actor([1, 1, 1], 0);
    let b = actor([2, 2, 2], 0);
    assert_eq!(packet(&a, &b, b"x"), packet(&a, &b, b"x"));
    assert_ne!(packet(&a, &b, b"x"), packet(&a, &b, b"y"));
    assert_ne!(packet(&a, &b, b"x"), packet(&b, &b, b"x"));
    assert_ne!(packet(&a, &b, b"x"), packet(&a, &a, b"x"));
    assert_eq!(packet(&a, &b, b"x").duplicate(), packet(&a, &b, b"x"));
}

#[test]
fn trust_me_makes_self_a_voting_member() {
    let mut node = BrbNode::new();
    let mut r = Router::new(addr(1000));
    let me = node.actor();
    let hello = r.apply(&mut node, RouterCmd::SayHello(addr(1000)));
    assert!(matches!(&sends(&hello)[0].0, NetworkMsg::Peer(x, _) if *x == me));
    r.apply(&mut node, RouterCmd::AddPeer(me, addr(1000)));
    assert!(node.peers().is_empty());
    let notes = r.apply(&mut node, RouterCmd::Trust("me".to_string()));
    assert!(notes.is_empty());
    assert_eq!(node.peers(), vec![me]);
    let listing = r.apply(&mut node, RouterCmd::ListPeers);
    assert_eq!(listing.len(), 1);
    assert!(matches!(&listing[0], Effect::Listing(l) if l.actor == me && l.voting && l.is_self && l.addr.is_some()));
    let notes = r.apply(&mut node, RouterCmd::Untrust(me.label()));
    assert!(notes.is_empty());
    assert!(node.peers().is_empty());
}

#[test]
fn debug_and_unknown_names_change_nothing() {
    let mut node = BrbNode::new();
    let mut r = Router::new(addr(1000));
    assert!(r.apply(&mut node, RouterCmd::Debug).is_empty());
    let e = r.apply(&mut node, RouterCmd::RequestJoin("i:zz".to_string()));
    assert_eq!(printed(&e), vec!["No actors with that actor id".to_string()]);
    assert!(r.unacked_packets().is_empty());
}

#[test]
fn anti_entropy_asks_the_named_peer_once() {
    let mut a = BrbNode::new();
    let b = BrbNode::new();
    let b_id = b.actor();
    let mut r = Router::new(addr(1000));
    r.add_peer(b_id, addr(2000));
    let e = r.apply(&mut a, RouterCmd::AntiEntropy(b_id.label()));
    let s = sends(&e);
    assert_eq!(s.len(), 1);
    assert!(matches!(&s[0].0, NetworkMsg::Packet(p) if p.dest == b_id && p.source == a.actor()));
    assert_eq!(s[0].1, 2000);
    assert_eq!(r.unacked_packets().len(), 1);
}

#[test]
fn refused_answers_send_nothing() {
    let a = actor([1, 1, 1], 0);
    let p = packet(&a, &a, b"x");
    assert!(packets_or_nothing(None).is_empty());
    assert_eq!(packets_or_nothing(Some(vec![p.clone()])), vec![p]);
}

#[test]
fn apply_of_garbage_packet_only_acknowledges() {
    let mut node = BrbNode::new();
    let other = BrbNode::new();
    let mut r = Router::new(addr(1000));
    r.add_peer(other.actor(), addr(2000));
    let junk = Packet { source: other.actor(), dest: node.actor(), body: vec![1, 2, 3] };
    let e = r.apply(&mut node, RouterCmd::Apply(junk.clone()));
    let s = sends(&e);
    assert_eq!(s.len(), 1);
    assert!(matches!(&s[0].0, NetworkMsg::Ack(p) if *p == junk));
    assert_eq!(s[0].1, 2000);
    assert!(r.unacked_packets().is_empty());
}
