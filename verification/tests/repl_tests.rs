use brb_node_qp2p::message::RouterCmd;
use brb_node_qp2p::node::BrbNode;
use brb_node_qp2p::repl;
use brb_node_qp2p::repl::ReplOutcome;

fn args(v: &[&str]) -> Vec<String> {
    v.iter().map(|s| s.to_string()).collect()
}

fn usage_of(o: ReplOutcome) -> String {
    match o {
        ReplOutcome::Usage(s) => s,
        other => panic!("not a usage line: {:?}", other),
    }
}

#[test]
fn peer_command_takes_one_address() {
    assert!(matches!(repl::peer(&args(&["127.0.0.1:41644"])), ReplOutcome::Connect(s) if s == "127.0.0.1:41644"));
    assert_eq!(usage_of(repl::peer(&args(&[]))), "help: peer <ip>:<port>");
    assert_eq!(usage_of(repl::peer(&args(&["a", "b"]))), "help: peer <ip>:<port>");
}

#[test]
fn peers_command_takes_no_argument() {
    assert!(matches!(repl::peers(&args(&[])), ReplOutcome::Queue(c) if matches!(c.as_slice(), [RouterCmd::ListPeers])));
    assert_eq!(usage_of(repl::peers(&args(&["x"]))), "help: peers expects no arguments");
}

#[test]
fn actor_commands_take_one_actor() {
    assert!(matches!(repl::trust(&args(&["me"])), ReplOutcome::Queue(c) if matches!(c.as_slice(), [RouterCmd::Trust(s)] if s == "me")));
    assert!(matches!(repl::untrust(&args(&["i:8f4e"])), ReplOutcome::Queue(c) if matches!(c.as_slice(), [RouterCmd::Untrust(s)] if s == "i:8f4e")));
    assert!(matches!(repl::join(&args(&["i:34"])), ReplOutcome::Queue(c) if matches!(c.as_slice(), [RouterCmd::RequestJoin(s)] if s == "i:34")));
    assert!(matches!(repl::leave(&args(&["i:34"])), ReplOutcome::Queue(c) if matches!(c.as_slice(), [RouterCmd::RequestLeave(s)] if s == "i:34")));
    assert!(matches!(repl::anti_entropy(&args(&["i:87"])), ReplOutcome::Queue(c) if matches!(c.as_slice(), [RouterCmd::AntiEntropy(s)] if s == "i:87")));
    assert_eq!(usage_of(repl::trust(&args(&[]))), "help: trust id:8sdkgalsd | trust me");
    assert_eq!(usage_of(repl::untrust(&args(&["a", "b"]))), "help: untrust id:8f4e");
    assert_eq!(usage_of(repl::join(&args(&[]))), "help: join takes one arguments, the actor to add to the network");
    assert_eq!(usage_of(repl::leave(&args(&[]))), "help: leave takes one arguments, the actor to leave the network");
    assert_eq!(
        usage_of(repl::anti_entropy(&args(&[]))),
        "help: anti_entropy takes one arguments, the actor to request data from"
    );
}

#[test]
fn retry_and_dbg_ignore_arguments() {
    assert!(matches!(repl::retry(&args(&["x"])), ReplOutcome::Queue(c) if matches!(c.as_slice(), [RouterCmd::Retry])));
    assert!(matches!(repl::dbg(&args(&[])), ReplOutcome::Queue(c) if matches!(c.as_slice(), [RouterCmd::Debug])));
}

#[test]
fn add_and_remove_check_their_argument() {
    let mut node = BrbNode::new();
    assert_eq!(usage_of(repl::add(&mut node, &args(&[]))), "help: add <v>");
    assert_eq!(usage_of(repl::remove(&mut node, &args(&["1", "2"]))), "help: remove <v>");
    assert!(matches!(repl::add(&mut node, &args(&["x3"])), ReplOutcome::BadArg(s) if s == "x3"));
    assert!(matches!(repl::remove(&mut node, &args(&["-3"])), ReplOutcome::BadArg(s) if s == "-3"));
}

#[test]
fn add_without_members_sends_nothing() {
    let mut node = BrbNode::new();
    match repl::add(&mut node, &args(&["3"])) {
        ReplOutcome::Queue(c) => assert!(c.iter().all(|x| matches!(x, RouterCmd::Deliver(_)))),
        other => panic!("unexpected {:?}", other),
    }
}

#[test]
fn read_of_a_new_node_is_empty() {
    let node = BrbNode::new();
    assert!(matches!(repl::read(&node, &args(&[])), ReplOutcome::Show(v) if v.is_empty()));
}
