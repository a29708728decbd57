//! The values that travel between nodes and into the router: peer addresses, BRB
//! packets, network messages and router commands.
use vstd::prelude::*;
use crate::actor::ActorId;

verus! {

/// A peer's socket address: an IPv4 or IPv6 address and a port.
#[derive(Clone, Copy, Debug)]
pub enum PeerAddr {
    V4 { octets: [u8; 4], port: u16 },
    V6 { bytes: [u8; 16], port: u16, flowinfo: u32, scope_id: u32 },
}

/// A BRB packet: who sent it, who it is for, and the packet itself as encoded bytes.
#[derive(Clone, Debug)]
pub struct Packet {
    pub source: ActorId,
    pub dest: ActorId,
    pub body: Vec<u8>,
}

/// What a packet is, as mathematical values.
pub struct PacketView {
    pub source: Seq<u8>,
    pub dest: Seq<u8>,
    pub body: Seq<u8>,
}

impl View for Packet {
    type V = PacketView;

    open spec fn view(&self) -> PacketView {
        PacketView { source: self.source@, dest: self.dest@, body: self.body@ }
    }
}

/// Whether two byte strings are equal.
pub fn same_bytes(a: &Vec<u8>, b: &Vec<u8>) -> (r: bool)
    ensures
        r == (a@ == b@),
{
    if a.len() != b.len() {
        return false;
    }
    let mut i: usize = 0;
    while i < a.len()
        invariant
            i <= a.len(),
            a.len() == b.len(),
            forall|j: int| 0 <= j < i ==> a@[j] == b@[j],
        decreases a.len() - i,
    {
        if a[i] != b[i] {
            return false;
        }
        i = i + 1;
    }
    assert(a@ =~= b@);
    true
}

/// A copy of a byte string.
pub fn copy_bytes(a: &Vec<u8>) -> (r: Vec<u8>)
    ensures
        r@ == a@,
{
    let mut r: Vec<u8> = Vec::new();
    let mut i: usize = 0;
    while i < a.len()
        invariant
            i <= a.len(),
            r@ == a@.take(i as int),
        decreases a.len() - i,
    {
        r.push(a[i]);
        i = i + 1;
        assert(a@.take(i as int) =~= a@.take(i - 1).push(a@[i - 1]));
    }
    assert(a@.take(a@.len() as int) =~= a@);
    r
}

impl Packet {
    /// Whether `self` and `other` are the same packet.
    pub fn same(&self, other: &Packet) -> (r: bool)
        ensures
            r == (self@ == other@),
    {
        self.source.same(&other.source) && self.dest.same(&other.dest) && same_bytes(
            &self.body,
            &other.body,
        )
    }

    /// A copy of this packet.
    pub fn duplicate(&self) -> (r: Packet)
        ensures
            r@ == self@,
    {
        Packet { source: self.source, dest: self.dest, body: copy_bytes(&self.body) }
    }
}

impl PartialEq for Packet {
    fn eq(&self, other: &Self) -> (r: bool) {
        self.same(other)
    }
}

impl vstd::std_specs::cmp::PartialEqSpecImpl for Packet {
    open spec fn obeys_eq_spec() -> bool {
        true
    }

    open spec fn eq_spec(&self, other: &Self) -> bool {
        self@ == other@
    }
}

impl Eq for Packet {
}

/// What one node sends another: its own or a known peer's address, a packet, or the
/// acknowledgement of a packet.
#[derive(Clone, Debug)]
pub enum NetworkMsg {
    Peer(ActorId, PeerAddr),
    Packet(Packet),
    Ack(Packet),
}

/// A network message as mathematical values.
pub enum MsgView {
    Peer(Seq<u8>, PeerAddr),
    Packet(PacketView),
    Ack(PacketView),
}

impl View for NetworkMsg {
    type V = MsgView;

    open spec fn view(&self) -> MsgView {
        match self {
            NetworkMsg::Peer(a, addr) => MsgView::Peer(a@, *addr),
            NetworkMsg::Packet(p) => MsgView::Packet(p@),
            NetworkMsg::Ack(p) => MsgView::Ack(p@),
        }
    }
}

/// What the router is asked to do, by the console or by the network.
#[derive(Clone, Debug)]
pub enum RouterCmd {
    Retry,
    Debug,
    AntiEntropy(String),
    ListPeers,
    RequestJoin(String),
    RequestLeave(String),
    Trust(String),
    Untrust(String),
    SayHello(PeerAddr),
    AddPeer(ActorId, PeerAddr),
    Deliver(Packet),
    Apply(Packet),
    Acked(Packet),
}

/// A router command as mathematical values.
pub enum CmdView {
    Retry,
    Debug,
    AntiEntropy(Seq<char>),
    ListPeers,
    RequestJoin(Seq<char>),
    RequestLeave(Seq<char>),
    Trust(Seq<char>),
    Untrust(Seq<char>),
    SayHello(PeerAddr),
    AddPeer(Seq<u8>, PeerAddr),
    Deliver(PacketView),
    Apply(PacketView),
    Acked(PacketView),
}

impl View for RouterCmd {
    type V = CmdView;

    open spec fn view(&self) -> CmdView {
        match self {
            RouterCmd::Retry => CmdView::Retry,
            RouterCmd::Debug => CmdView::Debug,
            RouterCmd::AntiEntropy(s) => CmdView::AntiEntropy(s@),
            RouterCmd::ListPeers => CmdView::ListPeers,
            RouterCmd::RequestJoin(s) => CmdView::RequestJoin(s@),
            RouterCmd::RequestLeave(s) => CmdView::RequestLeave(s@),
            RouterCmd::Trust(s) => CmdView::Trust(s@),
            RouterCmd::Untrust(s) => CmdView::Untrust(s@),
            RouterCmd::SayHello(addr) => CmdView::SayHello(*addr),
            RouterCmd::AddPeer(a, addr) => CmdView::AddPeer(a@, *addr),
            RouterCmd::Deliver(p) => CmdView::Deliver(p@),
            RouterCmd::Apply(p) => CmdView::Apply(p@),
            RouterCmd::Acked(p) => CmdView::Acked(p@),
        }
    }
}

/// The router command that a message received from the network becomes.
pub open spec fn command_for_msg(msg: MsgView) -> CmdView {
    match msg {
        MsgView::Peer(a, addr) => CmdView::AddPeer(a, addr),
        MsgView::Packet(p) => CmdView::Apply(p),
        MsgView::Ack(p) => CmdView::Acked(p),
    }
}

/// The router command for a message received from the network: a peer announcement
/// adds the peer, a packet is applied, an acknowledgement settles a sent packet.
pub fn command_for(msg: NetworkMsg) -> (cmd: RouterCmd)
    ensures
        cmd@ == command_for_msg(msg@),
{
    match msg {
        NetworkMsg::Peer(a, addr) => RouterCmd::AddPeer(a, addr),
        NetworkMsg::Packet(p) => RouterCmd::Apply(p),
        NetworkMsg::Ack(p) => RouterCmd::Acked(p),
    }
}

} // verus!
