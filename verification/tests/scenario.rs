use brb_node_qp2p::message::{command_for, PeerAddr, RouterCmd};
use brb_node_qp2p::node::BrbNode;
use brb_node_qp2p::repl;
use brb_node_qp2p::repl::ReplOutcome;
use brb_node_qp2p::router::{Effect, Router};
use std::collections::VecDeque;

struct Peer {
    node: BrbNode,
    router: Router,
    port: u16,
}

fn addr(port: u16) -> PeerAddr {
    PeerAddr::V4 { octets: [127, 0, 0, 1], port }
}

fn port_of(a: &PeerAddr) -> u16 {
    match a {
        PeerAddr::V4 { port, .. } => *port,
        PeerAddr::V6 { port, .. } => *port,
    }
}

fn new_peer(port: u16) -> Peer {
    Peer { node: BrbNode::new(), router: Router::new(addr(port)), port }
}

/// Runs `cmd` at peer `at`, then carries every message sent until the network is quiet.
/// Returns the lines shown and the listings, in order.
fn run(peers: &mut [Peer], at: usize, cmd: RouterCmd) -> Vec<Effect> {
    let mut shown = Vec::new();
    let mut queue: VecDeque<(usize, RouterCmd)> = VecDeque::new();
    queue.push_back((at, cmd));
    let mut steps: u32 = 0;
    while let Some((i, cmd)) = queue.pop_front() {
        steps += 1;
        assert!(steps < 10_000, "the network does not settle");
        let p = &mut peers[i];
        let effects = p.router.apply(&mut p.node, cmd);
        for e in effects {
            match e {
                Effect::Send { msg, addr } => {
                    let dest = peers.iter().position(|q| q.port == port_of(&addr)).expect("known port");
                    queue.push_back((dest, command_for(msg)));
                }
                other => shown.push(other),
            }
        }
    }
    shown
}

fn queue_all(peers: &mut [Peer], at: usize, outcome: ReplOutcome) {
    match outcome {
        ReplOutcome::Queue(cmds) => {
            for c in cmds {
                run(peers, at, c);
            }
        }
        other => panic!("unexpected outcome {:?}", other),
    }
}

fn voting_flags(shown: &[Effect]) -> Vec<(String, bool, bool)> {
    shown
        .iter()
        .filter_map(|e| match e {
            Effect::Listing(l) => Some((l.actor.label(), l.voting, l.is_self)),
            _ => None,
        })
        .collect()
}

#[test]
fn two_nodes_form_a_group_and_agree_on_a_value() {
    let mut peers = vec![new_peer(41644), new_peer(53261)];
    let a_id = peers[0].node.actor();
    let b_id = peers[1].node.actor();

    // Each node greets itself, and A trusts itself.
    run(&mut peers, 0, RouterCmd::SayHello(addr(41644)));
    run(&mut peers, 1, RouterCmd::SayHello(addr(53261)));
    run(&mut peers, 0, RouterCmd::Trust("me".to_string()));
    assert_eq!(peers[0].node.peers(), vec![a_id]);

    // B greets A: both now know both.
    run(&mut peers, 1, RouterCmd::SayHello(addr(41644)));
    assert_eq!(peers[0].router.peer_table().len(), 2);
    assert_eq!(peers[1].router.peer_table().len(), 2);

    // B trusts A.
    run(&mut peers, 1, RouterCmd::Trust(a_id.label()));
    assert_eq!(peers[1].node.peers(), vec![a_id]);

    // A sponsors B; A's group votes B in.
    run(&mut peers, 0, RouterCmd::RequestJoin(b_id.label()));
    let mut both = vec![a_id, b_id];
    both.sort_by(|x, y| x.key.cmp(&y.key));
    assert_eq!(peers[0].node.peers(), both);
    let listing = run(&mut peers, 0, RouterCmd::ListPeers);
    let flags = voting_flags(&listing);
    assert_eq!(flags.len(), 2);
    assert!(flags.iter().all(|(_, voting, _)| *voting));

    // B catches up by anti-entropy with A.
    run(&mut peers, 1, RouterCmd::AntiEntropy(a_id.label()));
    assert_eq!(peers[1].node.peers(), both);

    // B adds 3 to the set; both read {3}.
    let args = vec!["3".to_string()];
    let outcome = repl::add(&mut peers[1].node, &args);
    queue_all(&mut peers, 1, outcome);
    match repl::read(&peers[1].node, &[]) {
        ReplOutcome::Show(v) => assert_eq!(v, vec![3]),
        other => panic!("unexpected outcome {:?}", other),
    }
    match repl::read(&peers[0].node, &[]) {
        ReplOutcome::Show(v) => assert_eq!(v, vec![3]),
        other => panic!("unexpected outcome {:?}", other),
    }

    // Every packet sent has been acknowledged.
    assert!(peers[0].router.unacked_packets().is_empty());
    assert!(peers[1].router.unacked_packets().is_empty());
}

#[test]
fn lone_node_adds_and_removes_a_value() {
    let mut peers = vec![new_peer(1000)];
    run(&mut peers, 0, RouterCmd::SayHello(addr(1000)));
    run(&mut peers, 0, RouterCmd::Trust("me".to_string()));
    let outcome = repl::add(&mut peers[0].node, &["5".to_string()]);
    queue_all(&mut peers, 0, outcome);
    assert_eq!(peers[0].node.read(), vec![5]);
    let outcome = repl::remove(&mut peers[0].node, &["5".to_string()]);
    queue_all(&mut peers, 0, outcome);
    assert!(peers[0].node.read().is_empty());
}

#[test]
fn trust_and_untrust_undo_each_other_after_a_join() {
    let mut peers = vec![new_peer(2000), new_peer(2001)];
    let a_id = peers[0].node.actor();
    let b_id = peers[1].node.actor();
    let c_id = BrbNode::new().actor();
    run(&mut peers, 0, RouterCmd::SayHello(addr(2000)));
    run(&mut peers, 1, RouterCmd::SayHello(addr(2000)));
    run(&mut peers, 0, RouterCmd::Trust("me".to_string()));
    run(&mut peers, 0, RouterCmd::RequestJoin(b_id.label()));
    let mut both = vec![a_id, b_id];
    both.sort_by(|x, y| x.key.cmp(&y.key));
    assert_eq!(peers[0].node.peers(), both);

    // Past the first generation: trusting an outsider then untrusting it restores the
    // members, and so does untrusting a member then trusting it again.
    let node = &mut peers[0].node;
    node.trust_peer(&c_id);
    let with_c = node.peers();
    assert!(with_c.contains(&c_id));
    node.untrust_peer(&c_id);
    assert_eq!(node.peers(), both);
    // This generation's vote that let B in still counts after the forced leave, so
    // the members lose at most B.
    node.untrust_peer(&b_id);
    let without_b = node.peers();
    assert!(without_b.contains(&a_id));
    assert!(without_b.iter().all(|x| both.contains(x)));
    node.trust_peer(&b_id);
    assert_eq!(node.peers(), both);
}
