//! The console commands: what each one, given its arguments, asks of the router or
//! shows to the user.
use vstd::prelude::*;
use crate::message::{CmdView, Packet, PacketView, RouterCmd};
use crate::node::{packets_view, BrbNode};
use crate::text::{chars_of, decimal_u64, parse_decimal_u64, text_of};

verus! {

/// What a console command comes to.
#[derive(Debug)]
pub enum ReplOutcome {
    /// Commands to queue for the router, in order.
    Queue(Vec<RouterCmd>),
    /// An address, as typed, to parse as a socket address and greet.
    Connect(String),
    /// A usage line to show, the arguments being wrong.
    Usage(String),
    /// An argument that is not a valid value.
    BadArg(String),
    /// The values of the replicated set, to show.
    Show(Vec<u64>),
}

/// A console outcome as mathematical values.
pub enum ReplView {
    Queue(Seq<CmdView>),
    Connect(Seq<char>),
    Usage(Seq<char>),
    BadArg(Seq<char>),
    Show(Seq<u64>),
}

impl View for ReplOutcome {
    type V = ReplView;

    open spec fn view(&self) -> ReplView {
        match self {
            ReplOutcome::Queue(cmds) => ReplView::Queue(cmds@.map_values(|c: RouterCmd| c@)),
            ReplOutcome::Connect(s) => ReplView::Connect(s@),
            ReplOutcome::Usage(s) => ReplView::Usage(s@),
            ReplOutcome::BadArg(s) => ReplView::BadArg(s@),
            ReplOutcome::Show(v) => ReplView::Show(v@),
        }
    }
}

/// The router commands that deliver `packets`, in order.
pub open spec fn deliveries(packets: Seq<PacketView>) -> Seq<CmdView> {
    packets.map_values(|p: PacketView| CmdView::Deliver(p))
}

/// A usage line.
fn usage(text: &str) -> (r: ReplOutcome)
    ensures
        r@ == ReplView::Usage(text@),
{
    ReplOutcome::Usage(text_of(&chars_of(text)))
}

/// A single router command to queue.
fn queue_one(cmd: RouterCmd) -> (r: ReplOutcome)
    ensures
        r@ == ReplView::Queue(seq![cmd@]),
{
    let mut v: Vec<RouterCmd> = Vec::new();
    v.push(cmd);
    let r = ReplOutcome::Queue(v);
    assert(v@.map_values(|c: RouterCmd| c@) =~= seq![cmd@]);
    r
}

/// `peer <ip>:<port>`: the address to greet.
pub fn peer(args: &[String]) -> (r: ReplOutcome)
    ensures
        r@ == (if args@.len() == 1 {
            ReplView::Connect(args@[0]@)
        } else {
            ReplView::Usage("help: peer <ip>:<port>"@)
        }),
{
    if args.len() == 1 {
        ReplOutcome::Connect(args[0].clone())
    } else {
        usage("help: peer <ip>:<port>")
    }
}

/// `peers`: lists the peers; it takes no argument.
pub fn peers(args: &[String]) -> (r: ReplOutcome)
    ensures
        r@ == (if args@.len() == 0 {
            ReplView::Queue(seq![CmdView::ListPeers])
        } else {
            ReplView::Usage("help: peers expects no arguments"@)
        }),
{
    if args.len() == 0 {
        queue_one(RouterCmd::ListPeers)
    } else {
        usage("help: peers expects no arguments")
    }
}

/// `trust <actor>`: makes an actor a voting member locally.
pub fn trust(args: &[String]) -> (r: ReplOutcome)
    ensures
        args@.len() == 1 ==> r@ == ReplView::Queue(seq![CmdView::Trust(args@[0]@)]),
        args@.len() != 1 ==> r@ == ReplView::Usage("help: trust id:8sdkgalsd | trust me"@),
{
    if args.len() == 1 {
        queue_one(RouterCmd::Trust(args[0].clone()))
    } else {
        usage("help: trust id:8sdkgalsd | trust me")
    }
}

/// `untrust <actor>`: removes an actor from the voting members locally.
pub fn untrust(args: &[String]) -> (r: ReplOutcome)
    ensures
        args@.len() == 1 ==> r@ == ReplView::Queue(seq![CmdView::Untrust(args@[0]@)]),
        args@.len() != 1 ==> r@ == ReplView::Usage("help: untrust id:8f4e"@),
{
    if args.len() == 1 {
        queue_one(RouterCmd::Untrust(args[0].clone()))
    } else {
        usage("help: untrust id:8f4e")
    }
}

/// `join <actor>`: proposes that an actor join the voting members.
pub fn join(args: &[String]) -> (r: ReplOutcome)
    ensures
        args@.len() == 1 ==> r@ == ReplView::Queue(seq![CmdView::RequestJoin(args@[0]@)]),
        args@.len() != 1 ==> r@ == ReplView::Usage("help: join takes one arguments, the actor to add to the network"@),
{
    if args.len() == 1 {
        queue_one(RouterCmd::RequestJoin(args[0].clone()))
    } else {
        usage("help: join takes one arguments, the actor to add to the network")
    }
}

/// `leave <actor>`: proposes that an actor leave the voting members.
pub fn leave(args: &[String]) -> (r: ReplOutcome)
    ensures
        args@.len() == 1 ==> r@ == ReplView::Queue(seq![CmdView::RequestLeave(args@[0]@)]),
        args@.len() != 1 ==> r@ == ReplView::Usage("help: leave takes one arguments, the actor to leave the network"@),
{
    if args.len() == 1 {
        queue_one(RouterCmd::RequestLeave(args[0].clone()))
    } else {
        usage("help: leave takes one arguments, the actor to leave the network")
    }
}

/// `anti_entropy <actor>`: asks an actor for the history this node lacks.
pub fn anti_entropy(args: &[String]) -> (r: ReplOutcome)
    ensures
        args@.len() == 1 ==> r@ == ReplView::Queue(seq![CmdView::AntiEntropy(args@[0]@)]),
        args@.len() != 1 ==> r@ == ReplView::Usage("help: anti_entropy takes one arguments, the actor to request data from"@),
{
    if args.len() == 1 {
        queue_one(RouterCmd::AntiEntropy(args[0].clone()))
    } else {
        usage("help: anti_entropy takes one arguments, the actor to request data from")
    }
}

/// `retry`: resends the unacknowledged packets; arguments are ignored.
pub fn retry(args: &[String]) -> (r: ReplOutcome)
    ensures
        r@ == ReplView::Queue(seq![CmdView::Retry]),
{
    queue_one(RouterCmd::Retry)
}

/// `dbg`: dumps the router's state to the log; arguments are ignored.
pub fn dbg(args: &[String]) -> (r: ReplOutcome)
    ensures
        r@ == ReplView::Queue(seq![CmdView::Debug]),
{
    queue_one(RouterCmd::Debug)
}

/// `read`: the values of the replicated set; arguments are ignored.
pub fn read(node: &BrbNode, args: &[String]) -> (r: ReplOutcome)
    ensures
        r matches ReplOutcome::Show(v) && v@.no_duplicates() && v@.to_set() == node.values(),
{
    ReplOutcome::Show(node.read())
}

/// The commands that deliver `packets`, in order.
fn deliver_each(packets: Vec<Packet>) -> (r: Vec<RouterCmd>)
    ensures
        r@.map_values(|c: RouterCmd| c@) == deliveries(packets_view(packets@)),
{
    let mut cmds: Vec<RouterCmd> = Vec::new();
    let mut i: usize = 0;
    while i < packets.len()
        invariant
            i <= packets.len(),
            cmds@.map_values(|c: RouterCmd| c@) == deliveries(packets_view(packets@.take(i as int))),
        decreases packets.len() - i,
    {
        let ghost prev = cmds@;
        let c = RouterCmd::Deliver(packets[i].duplicate());
        cmds.push(c);
        assert(cmds@.map_values(|c: RouterCmd| c@) =~= prev.map_values(|c: RouterCmd| c@).push(c@));
        i = i + 1;
        assert(packets@.take(i as int) =~= packets@.take(i - 1).push(packets@[i - 1]));
        assert(cmds@.map_values(|c: RouterCmd| c@) =~= deliveries(
            packets_view(packets@.take(i as int)),
        ));
    }
    assert(packets@.take(packets@.len() as int) =~= packets@);
    cmds
}

/// `add <v>`: starts agreement on adding value `v`, queueing the delivery of each
/// packet BRB produces. A missing or extra argument shows the usage line; an argument
/// that is not a `u64` is refused and nothing is started.
pub fn add(node: &mut BrbNode, args: &[String]) -> (r: ReplOutcome)
    ensures
        final(node).actor_id() == old(node).actor_id(),
        args@.len() != 1 ==> r@ == ReplView::Usage("help: add <v>"@) && *final(node) == *old(node),
        args@.len() == 1 && decimal_u64(args@[0]@) is None ==> r@ == ReplView::BadArg(args@[0]@)
            && *final(node) == *old(node),
        args@.len() == 1 && decimal_u64(args@[0]@) is Some ==> *final(node) == old(node).after_add(
            decimal_u64(args@[0]@)->Some_0,
        ) && r@ == ReplView::Queue(
            deliveries(old(node).add_answer(decimal_u64(args@[0]@)->Some_0)),
        ),
{
    if args.len() != 1 {
        return usage("help: add <v>");
    }
    match parse_decimal_u64(args[0].as_str()) {
        Some(v) => {
            let packets = node.add(v);
            let cmds = deliver_each(packets);
            assert(ReplOutcome::Queue(cmds)@ == ReplView::Queue(deliveries(packets_view(packets@))));
            ReplOutcome::Queue(cmds)
        },
        None => ReplOutcome::BadArg(args[0].clone()),
    }
}

/// `remove <v>`: starts agreement on removing value `v`, queueing the delivery of each
/// packet BRB produces. A missing or extra argument shows the usage line; an argument
/// that is not a `u64` is refused and nothing is started.
pub fn remove(node: &mut BrbNode, args: &[String]) -> (r: ReplOutcome)
    ensures
        final(node).actor_id() == old(node).actor_id(),
        args@.len() != 1 ==> r@ == ReplView::Usage("help: remove <v>"@) && *final(node)
            == *old(node),
        args@.len() == 1 && decimal_u64(args@[0]@) is None ==> r@ == ReplView::BadArg(args@[0]@)
            && *final(node) == *old(node),
        args@.len() == 1 && decimal_u64(args@[0]@) is Some ==> *final(node) == old(node).after_rm(
            decimal_u64(args@[0]@)->Some_0,
        ) && r@ == ReplView::Queue(
            deliveries(old(node).rm_answer(decimal_u64(args@[0]@)->Some_0)),
        ),
{
    if args.len() != 1 {
        return usage("help: remove <v>");
    }
    match parse_decimal_u64(args[0].as_str()) {
        Some(v) => {
            let packets = node.rm(v);
            let cmds = deliver_each(packets);
            assert(ReplOutcome::Queue(cmds)@ == ReplView::Queue(deliveries(packets_view(packets@))));
            ReplOutcome::Queue(cmds)
        },
        None => ReplOutcome::BadArg(args[0].clone()),
    }
}

} // verus!
