//! The router: the table of known peers, the packets sent and not yet acknowledged,
//! and the decisions taken on each command. It performs no I/O; it returns what is to
//! be sent and shown.
use vstd::prelude::*;
use crate::actor::{actor_label, key_lt, keys_ascending, lemma_key_total, lemma_key_transitive, ActorId};
use crate::text::{chars_of, has_prefix, same_chars, starts_with, string_chars, text_of};
use crate::message::{CmdView, MsgView, NetworkMsg, Packet, PacketView, PeerAddr, RouterCmd};
use crate::node::{packets_view, valid_public_key, BrbNode};

verus! {

/// One line of the peer listing: an identity, its address if known, whether it is a
/// voting member, and whether it is this node.
#[derive(Clone, Debug)]
pub struct PeerListing {
    pub actor: ActorId,
    pub addr: Option<PeerAddr>,
    pub voting: bool,
    pub is_self: bool,
}

/// A line of the peer listing as mathematical values.
pub struct ListingView {
    pub actor: Seq<u8>,
    pub addr: Option<PeerAddr>,
    pub voting: bool,
    pub is_self: bool,
}

impl View for PeerListing {
    type V = ListingView;

    open spec fn view(&self) -> ListingView {
        ListingView { actor: self.actor@, addr: self.addr, voting: self.voting, is_self: self.is_self }
    }
}

/// What the router asks its caller to do: send a message to an address, or show a
/// line of text or of the peer listing to the user.
#[derive(Clone, Debug)]
pub enum Effect {
    Send { msg: NetworkMsg, addr: PeerAddr },
    Print(String),
    Listing(PeerListing),
}

/// An effect as mathematical values.
pub enum EffectView {
    Send(MsgView, PeerAddr),
    Print(Seq<char>),
    Listing(ListingView),
}

impl View for Effect {
    type V = EffectView;

    open spec fn view(&self) -> EffectView {
        match self {
            Effect::Send { msg, addr } => EffectView::Send(msg@, *addr),
            Effect::Print(s) => EffectView::Print(s@),
            Effect::Listing(l) => EffectView::Listing(l@),
        }
    }
}

/// A list of effects as mathematical values.
pub open spec fn effects_view(v: Seq<Effect>) -> Seq<EffectView> {
    v.map_values(|e: Effect| e@)
}

/// The router's state: its own address, the known peers with their addresses, and the
/// packets it has sent that are not yet acknowledged, oldest first.
pub struct RouterView {
    pub addr: PeerAddr,
    pub peers: Seq<(Seq<u8>, PeerAddr)>,
    pub unacked: Seq<PacketView>,
}

/// `a` is one of the known peers.
pub open spec fn has_actor(peers: Seq<(Seq<u8>, PeerAddr)>, a: Seq<u8>) -> bool {
    exists|i: int| 0 <= i < peers.len() && (#[trigger] peers[i]).0 == a
}

/// The address of peer `a`, if it is known.
pub open spec fn lookup(peers: Seq<(Seq<u8>, PeerAddr)>, a: Seq<u8>) -> Option<PeerAddr> {
    if has_actor(peers, a) {
        Some(peers[choose|i: int| 0 <= i < peers.len() && (#[trigger] peers[i]).0 == a].1)
    } else {
        None
    }
}

/// No peer is listed twice.
pub open spec fn distinct_actors(peers: Seq<(Seq<u8>, PeerAddr)>) -> bool {
    forall|i: int, j: int|
        0 <= i < j < peers.len() ==> (#[trigger] peers[i]).0 != (#[trigger] peers[j]).0
}

/// Sending packet `p`: when its destination is a known peer, it goes to that peer's
/// address and joins the unacknowledged packets; otherwise nothing happens.
pub open spec fn deliver_step(r: RouterView, p: PacketView) -> (RouterView, Seq<EffectView>) {
    match lookup(r.peers, p.dest) {
        Some(addr) => (
            RouterView { unacked: r.unacked.push(p), ..r },
            seq![EffectView::Send(MsgView::Packet(p), addr)],
        ),
        None => (r, seq![]),
    }
}

/// Sending packets `ps` one after the other.
pub open spec fn deliver_all(r: RouterView, ps: Seq<PacketView>) -> (RouterView, Seq<EffectView>)
    decreases ps.len(),
{
    if ps.len() == 0 {
        (r, seq![])
    } else {
        let (r1, e1) = deliver_all(r, ps.drop_last());
        let (r2, e2) = deliver_step(r1, ps.last());
        (r2, e1 + e2)
    }
}

/// The packets of `ps` whose destination is a known peer, in order.
pub open spec fn routable(peers: Seq<(Seq<u8>, PeerAddr)>, ps: Seq<PacketView>) -> Seq<PacketView>
    decreases ps.len(),
{
    if ps.len() == 0 {
        seq![]
    } else {
        let rest = routable(peers, ps.drop_last());
        if has_actor(peers, ps.last().dest) {
            rest.push(ps.last())
        } else {
            rest
        }
    }
}

/// Resending: the unacknowledged packets are sent again, in order, and those for an
/// unknown destination are dropped.
pub open spec fn retry_step(r: RouterView) -> (RouterView, Seq<EffectView>) {
    deliver_all(RouterView { unacked: seq![], ..r }, r.unacked)
}

/// Learning of peer `a` at `addr`: a new peer is told of every peer known so far and
/// is added to the table; a peer already known changes nothing.
pub open spec fn add_peer_step(r: RouterView, a: Seq<u8>, addr: PeerAddr) -> (
    RouterView,
    Seq<EffectView>,
) {
    if has_actor(r.peers, a) {
        (r, seq![])
    } else {
        (
            RouterView { peers: r.peers.push((a, addr)), ..r },
            r.peers.map_values(
                |e: (Seq<u8>, PeerAddr)| EffectView::Send(MsgView::Peer(e.0, e.1), addr),
            ),
        )
    }
}

/// `s` without the first occurrence of `p`, if there is one.
pub open spec fn remove_first(s: Seq<PacketView>, p: PacketView) -> Seq<PacketView>
    decreases s.len(),
{
    if s.len() == 0 {
        s
    } else if s[0] == p {
        s.drop_first()
    } else {
        seq![s[0]] + remove_first(s.drop_first(), p)
    }
}

/// The acknowledgement of packet `p` back to its source, when the source is known.
pub open spec fn ack_effects(peers: Seq<(Seq<u8>, PeerAddr)>, p: PacketView) -> Seq<EffectView> {
    match lookup(peers, p.source) {
        Some(addr) => seq![EffectView::Send(MsgView::Ack(p), addr)],
        None => seq![],
    }
}

/// The router of a node.
#[derive(Debug)]
pub struct Router {
    addr: PeerAddr,
    peers: Vec<(ActorId, PeerAddr)>,
    unacked: Vec<Packet>,
}

impl View for Router {
    type V = RouterView;

    closed spec fn view(&self) -> RouterView {
        RouterView {
            addr: self.addr,
            peers: self.peers@.map_values(|e: (ActorId, PeerAddr)| (e.0@, e.1)),
            unacked: self.unacked@.map_values(|p: Packet| p@),
        }
    }
}

/// Looking up a peer that is listed at position `i` finds that entry.
pub proof fn lemma_lookup_at(peers: Seq<(Seq<u8>, PeerAddr)>, i: int)
    requires
        distinct_actors(peers),
        0 <= i < peers.len(),
    ensures
        has_actor(peers, peers[i].0),
        lookup(peers, peers[i].0) == Some(peers[i].1),
{
    let a = peers[i].0;
    assert(has_actor(peers, a));
    let k: int = choose|k: int| 0 <= k < peers.len() && (#[trigger] peers[k]).0 == a;
    if k != i {
        if k < i {
            assert(peers[k].0 != peers[i].0);
        } else {
            assert(peers[i].0 != peers[k].0);
        }
    }
}

/// Removing the first occurrence of `p`, which stands at position `i`.
pub proof fn lemma_remove_first_at(s: Seq<PacketView>, p: PacketView, i: int)
    requires
        0 <= i < s.len(),
        s[i] == p,
        forall|j: int| 0 <= j < i ==> s[j] != p,
    ensures
        remove_first(s, p) == s.remove(i),
    decreases i,
{
    if i == 0 {
        assert(s.drop_first() =~= s.remove(0));
    } else {
        assert(s[0] != p);
        let t = s.drop_first();
        assert forall|j: int| 0 <= j < i - 1 implies t[j] != p by {
            assert(t[j] == s[j + 1]);
        }
        lemma_remove_first_at(t, p, i - 1);
        assert(seq![s[0]] + t.remove(i - 1) =~= s.remove(i));
    }
}

/// Removing the first occurrence of a packet that does not occur changes nothing.
pub proof fn lemma_remove_first_absent(s: Seq<PacketView>, p: PacketView)
    requires
        forall|j: int| 0 <= j < s.len() ==> s[j] != p,
    ensures
        remove_first(s, p) == s,
    decreases s.len(),
{
    if s.len() > 0 {
        let t = s.drop_first();
        assert forall|j: int| 0 <= j < t.len() implies t[j] != p by {
            assert(t[j] == s[j + 1]);
        }
        lemma_remove_first_absent(t, p);
        assert(seq![s[0]] + t =~= s);
    }
}

/// The identities of a list of actors.
pub open spec fn ids_view(v: Seq<ActorId>) -> Seq<Seq<u8>> {
    v.map_values(|a: ActorId| a@)
}

/// The known peers whose label begins with `id`, in table order.
pub open spec fn matching(peers: Seq<(Seq<u8>, PeerAddr)>, id: Seq<char>) -> Seq<Seq<u8>>
    decreases peers.len(),
{
    if peers.len() == 0 {
        seq![]
    } else {
        let rest = matching(peers.drop_last(), id);
        if starts_with(actor_label(peers.last().0), id) {
            rest.push(peers.last().0)
        } else {
            rest
        }
    }
}

/// The actor that the user's `id` designates: this node for `me`, otherwise the one
/// known peer whose label begins with `id`, if exactly one does.
pub open spec fn resolved(peers: Seq<(Seq<u8>, PeerAddr)>, me: Seq<u8>, id: Seq<char>) -> Option<
    Seq<u8>,
> {
    if id == "me"@ {
        Some(me)
    } else {
        let m = matching(peers, id);
        if m.len() == 1 {
            Some(m[0])
        } else {
            None
        }
    }
}

/// What the user is told when `id` designates no actor: that it is ambiguous, with
/// the labels of the candidates, or that nothing matches.
pub open spec fn resolve_notes(peers: Seq<(Seq<u8>, PeerAddr)>, me: Seq<u8>, id: Seq<char>) -> Seq<
    EffectView,
> {
    if id == "me"@ {
        seq![]
    } else {
        let m = matching(peers, id);
        if m.len() > 1 {
            seq![EffectView::Print("Ambiguous actor id, more than one actor matches:"@)]
                + m.map_values(|a: Seq<u8>| EffectView::Print(actor_label(a)))
        } else if m.len() == 0 {
            seq![EffectView::Print("No actors with that actor id"@)]
        } else {
            seq![]
        }
    }
}

/// `ids` lists, in increasing order, every voting member and every known peer, and
/// nothing else.
pub open spec fn listing_ids_ok(
    ids: Seq<Seq<u8>>,
    voting: Seq<Seq<u8>>,
    peers: Seq<(Seq<u8>, PeerAddr)>,
) -> bool {
    &&& keys_ascending(ids)
    &&& forall|x: Seq<u8>| #[trigger] ids.contains(x) <==> (voting.contains(x) || has_actor(peers, x))
}

/// The line of the peer listing for `id`.
pub open spec fn listing_line(
    peers: Seq<(Seq<u8>, PeerAddr)>,
    me: Seq<u8>,
    voting: Seq<Seq<u8>>,
    id: Seq<u8>,
) -> EffectView {
    EffectView::Listing(
        ListingView {
            actor: id,
            addr: lookup(peers, id),
            voting: voting.contains(id),
            is_self: id == me,
        },
    )
}

/// Every effect of `effects` is a listing line whose voting flag says exactly whether
/// its actor is among `voting`, whose self flag says exactly whether it is `me`, and
/// whose address is the one known for it.
pub open spec fn lines_flag_truly(
    effects: Seq<EffectView>,
    peers: Seq<(Seq<u8>, PeerAddr)>,
    me: Seq<u8>,
    voting: Seq<Seq<u8>>,
) -> bool {
    forall|i: int|
        0 <= i < effects.len() ==> match #[trigger] effects[i] {
            EffectView::Listing(l) => l.voting == voting.contains(l.actor) && l.is_self == (
            l.actor == me) && l.addr == lookup(peers, l.actor),
            _ => false,
        }
}

/// The peer listing: one line for each of `ids`, in order.
pub open spec fn listing(
    peers: Seq<(Seq<u8>, PeerAddr)>,
    me: Seq<u8>,
    voting: Seq<Seq<u8>>,
    ids: Seq<Seq<u8>>,
) -> Seq<EffectView> {
    ids.map_values(|id: Seq<u8>| listing_line(peers, me, voting, id))
}

/// Inserting into a sequence adds exactly the inserted element.
pub proof fn lemma_insert_contains(s: Seq<Seq<u8>>, pos: int, x: Seq<u8>)
    requires
        0 <= pos <= s.len(),
    ensures
        forall|y: Seq<u8>| #[trigger] s.insert(pos, x).contains(y) <==> (s.contains(y) || y == x),
{
    let t = s.insert(pos, x);
    assert forall|y: Seq<u8>| #[trigger] t.contains(y) <==> (s.contains(y) || y == x) by {
        if t.contains(y) {
            let k: int = choose|k: int| 0 <= k < t.len() && t[k] == y;
            if k < pos {
                assert(s[k] == y);
            } else if k > pos {
                assert(s[k - 1] == y);
            }
        }
        if s.contains(y) {
            let k: int = choose|k: int| 0 <= k < s.len() && s[k] == y;
            if k < pos {
                assert(t[k] == y);
            } else {
                assert(t[k + 1] == y);
            }
        }
        if y == x {
            assert(t[pos] == y);
        }
    }
}

/// Adds `x` to the increasing list `ids`, unless it is already there.
fn insert_ascending(ids: &mut Vec<ActorId>, x: ActorId)
    requires
        keys_ascending(ids_view(old(ids)@)),
    ensures
        keys_ascending(ids_view(final(ids)@)),
        forall|y: Seq<u8>| #[trigger]
            ids_view(final(ids)@).contains(y) <==> (ids_view(old(ids)@).contains(y) || y == x@),
{
    let ghost s = ids_view(ids@);
    let mut pos: usize = 0;
    while pos < ids.len()
        invariant
            pos <= ids.len(),
            s == ids_view(ids@),
            forall|j: int| 0 <= j < pos ==> key_lt(#[trigger] s[j], x@),
        ensures
            pos <= ids.len(),
            forall|j: int| 0 <= j < pos ==> key_lt(#[trigger] s[j], x@),
            pos == ids.len() || !key_lt(s[pos as int], x@),
        decreases ids.len() - pos,
    {
        if !ids[pos].precedes(&x) {
            assert(s[pos as int] == ids@[pos as int]@);
            break;
        }
        pos = pos + 1;
    }
    if pos < ids.len() && ids[pos].same(&x) {
        assert forall|y: Seq<u8>| #[trigger] s.contains(y) <==> (s.contains(y) || y == x@) by {
            if y == x@ {
                assert(s[pos as int] == y);
            }
        }
        return;
    }
    let ghost after = s.insert(pos as int, x@);
    if pos < ids.len() {
        proof {
            assert(s[pos as int] == ids@[pos as int]@);
            assert(s[pos as int].len() == 32);
            lemma_key_total(x@, s[pos as int]);
        }
        assert(key_lt(x@, s[pos as int]));
    }
    ids.insert(pos, x);
    assert(ids_view(ids@) =~= after);
    proof {
        lemma_insert_contains(s, pos as int, x@);
        assert forall|i: int, j: int| 0 <= i < j < after.len() implies key_lt(
            #[trigger] after[i],
            #[trigger] after[j],
        ) by {
            if j < pos {
                assert(after[i] == s[i] && after[j] == s[j]);
            } else if j == pos {
                assert(after[i] == s[i]);
            } else if i < pos {
                assert(after[i] == s[i] && after[j] == s[j - 1]);
                if j - 1 == pos {
                } else {
                    assert(key_lt(s[pos as int], s[j - 1]));
                    lemma_key_transitive(x@, s[pos as int], s[j - 1]);
                    lemma_key_transitive(s[i], x@, s[j - 1]);
                }
            } else if i == pos {
                assert(after[j] == s[j - 1]);
                if j - 1 > pos {
                    assert(key_lt(s[pos as int], s[j - 1]));
                    lemma_key_transitive(x@, s[pos as int], s[j - 1]);
                }
            } else {
                assert(after[i] == s[i - 1] && after[j] == s[j - 1]);
            }
        }
    }
}

/// Whether `a` is one of `v`.
fn contains_actor(v: &Vec<ActorId>, a: &ActorId) -> (r: bool)
    ensures
        r == ids_view(v@).contains(a@),
{
    let mut i: usize = 0;
    while i < v.len()
        invariant
            i <= v.len(),
            forall|j: int| 0 <= j < i ==> (#[trigger] ids_view(v@)[j]) != a@,
        decreases v.len() - i,
    {
        if v[i].same(a) {
            assert(ids_view(v@)[i as int] == a@);
            return true;
        }
        i = i + 1;
    }
    false
}

/// What a command that names an actor does once the name is resolved: nothing but the
/// notes when it designates no actor, otherwise the sending of the packets that BRB
/// `produced` for that actor.
pub open spec fn resolve_then_deliver(
    r: RouterView,
    me: Seq<u8>,
    id: Seq<char>,
    produced: Seq<PacketView>,
) -> (RouterView, Seq<EffectView>) {
    match resolved(r.peers, me, id) {
        Some(_) => deliver_all(r, produced),
        None => (r, resolve_notes(r.peers, me, id)),
    }
}

/// The outcomes of the BRB calls that a command makes are of the shapes BRB gives:
/// voting members in increasing order, listing identities made from them and the
/// known peers, and at most one anti-entropy packet, addressed to the actor named.
pub open spec fn outcome_fits(
    r: RouterView,
    me: Seq<u8>,
    cmd: CmdView,
    voting: Seq<Seq<u8>>,
    ids: Seq<Seq<u8>>,
    produced: Seq<PacketView>,
) -> bool {
    &&& (cmd is ListPeers ==> keys_ascending(voting) && listing_ids_ok(ids, voting, r.peers))
    &&& (cmd matches CmdView::AntiEntropy(id) ==> produced.len() <= 1 && forall|i: int|
        0 <= i < produced.len() ==> Some((#[trigger] produced[i]).dest) == resolved(
            r.peers,
            me,
            id,
        ))
}

/// The packets that the node's BRB gives for command `cmd`: for an actor-naming
/// command whose name designates an actor, the node's anti-entropy request or join or
/// leave votes for that actor; for `Apply`, the node's replies to the packet; none
/// otherwise.
pub open spec fn brb_produced(r: RouterView, n: BrbNode, cmd: CmdView) -> Seq<PacketView> {
    match cmd {
        CmdView::AntiEntropy(id) => match resolved(r.peers, n.actor_id(), id) {
            Some(k) => match n.anti_entropy_answer(k) {
                Some(p) => seq![p],
                None => seq![],
            },
            None => seq![],
        },
        CmdView::RequestJoin(id) => match resolved(r.peers, n.actor_id(), id) {
            Some(k) => n.join_answer(k),
            None => seq![],
        },
        CmdView::RequestLeave(id) => match resolved(r.peers, n.actor_id(), id) {
            Some(k) => n.leave_answer(k),
            None => seq![],
        },
        CmdView::Apply(p) => n.apply_answer(p.body),
        _ => seq![],
    }
}

/// How command `cmd` changes the node, from `n` to `n2`: trusting, untrusting, join
/// and leave proposals act on the designated actor (and leave the node alone when the
/// name designates nobody), `Apply` hands the packet to BRB, and every other command
/// leaves the node unchanged.
pub open spec fn node_change(r: RouterView, n: BrbNode, cmd: CmdView, n2: BrbNode) -> bool {
    match cmd {
        CmdView::Trust(id) => match resolved(r.peers, n.actor_id(), id) {
            Some(k) => BrbNode::trusted(n, n2, k),
            None => n2 == n,
        },
        CmdView::Untrust(id) => match resolved(r.peers, n.actor_id(), id) {
            Some(k) => BrbNode::untrusted(n, n2, k),
            None => n2 == n,
        },
        CmdView::RequestJoin(id) => match resolved(r.peers, n.actor_id(), id) {
            Some(k) => n2 == n.after_join(k),
            None => n2 == n,
        },
        CmdView::RequestLeave(id) => match resolved(r.peers, n.actor_id(), id) {
            Some(k) => n2 == n.after_leave(k),
            None => n2 == n,
        },
        CmdView::Apply(p) => n2 == n.after_apply(p.body),
        _ => n2 == n,
    }
}

/// The router's step on command `cmd`, for node `me`, given what BRB answered: the
/// voting members `voting` and the listing order `ids` (for `ListPeers`), and the
/// packets BRB `produced` (for `AntiEntropy`, `RequestJoin`, `RequestLeave` and
/// `Apply`). Commands of other kinds do not depend on them.
pub open spec fn step(
    r: RouterView,
    me: Seq<u8>,
    cmd: CmdView,
    voting: Seq<Seq<u8>>,
    ids: Seq<Seq<u8>>,
    produced: Seq<PacketView>,
) -> (RouterView, Seq<EffectView>) {
    match cmd {
        CmdView::Retry => retry_step(r),
        CmdView::Debug => (r, seq![]),
        CmdView::AntiEntropy(id) => resolve_then_deliver(r, me, id, produced),
        CmdView::ListPeers => (r, listing(r.peers, me, voting, ids)),
        CmdView::RequestJoin(id) => resolve_then_deliver(r, me, id, produced),
        CmdView::RequestLeave(id) => resolve_then_deliver(r, me, id, produced),
        CmdView::Trust(id) => (r, resolve_notes(r.peers, me, id)),
        CmdView::Untrust(id) => (r, resolve_notes(r.peers, me, id)),
        CmdView::SayHello(addr) => (r, seq![EffectView::Send(MsgView::Peer(me, r.addr), addr)]),
        CmdView::AddPeer(a, addr) => add_peer_step(r, a, addr),
        CmdView::Deliver(p) => deliver_step(r, p),
        CmdView::Apply(p) => {
            let (r2, e) = deliver_all(r, produced);
            (r2, e + ack_effects(r.peers, p))
        },
        CmdView::Acked(p) => (RouterView { unacked: remove_first(r.unacked, p), ..r }, seq![]),
    }
}

/// The actor found on resolving a name, as a key.
pub open spec fn found_key(found: Option<ActorId>) -> Option<Seq<u8>> {
    match found {
        Some(a) => Some(a@),
        None => None,
    }
}

impl Router {
    /// The router's table holds each peer once.
    pub open spec fn wf(&self) -> bool {
        distinct_actors(self@.peers)
    }

    /// A router for a node listening at `addr`, knowing no peer and owing no packet.
    pub fn new(addr: PeerAddr) -> (r: Router)
        ensures
            r.wf(),
            r@ == (RouterView { addr, peers: seq![], unacked: seq![] }),
    {
        let r = Router { addr, peers: Vec::new(), unacked: Vec::new() };
        assert(r@.peers =~= seq![]);
        assert(r@.unacked =~= seq![]);
        r
    }

    /// The address of peer `a`, if it is known.
    pub fn lookup(&self, a: &ActorId) -> (r: Option<PeerAddr>)
        requires
            self.wf(),
        ensures
            r == lookup(self@.peers, a@),
    {
        let ghost peers = self@.peers;
        let mut i: usize = 0;
        while i < self.peers.len()
            invariant
                i <= self.peers.len(),
                peers == self@.peers,
                peers.len() == self.peers.len(),
                distinct_actors(peers),
                forall|k: int| 0 <= k < i ==> (#[trigger] peers[k]).0 != a@,
            decreases self.peers.len() - i,
        {
            assert(peers[i as int] == (self.peers@[i as int].0@, self.peers@[i as int].1));
            if self.peers[i].0.same(a) {
                proof {
                    lemma_lookup_at(peers, i as int);
                }
                return Some(self.peers[i].1);
            }
            i = i + 1;
        }
        assert(!has_actor(peers, a@));
        None
    }

    /// Sends `p` if its destination is known, appending the send to `out`.
    fn route(&mut self, p: Packet, out: &mut Vec<Effect>)
        requires
            old(self).wf(),
        ensures
            final(self).wf(),
            final(self)@ == deliver_step(old(self)@, p@).0,
            effects_view(final(out)@) == effects_view(old(out)@) + deliver_step(old(self)@, p@).1,
    {
        let ghost before = effects_view(out@);
        match self.lookup(&p.dest) {
            Some(addr) => {
                let sent = p.duplicate();
                self.unacked.push(p);
                out.push(Effect::Send { msg: NetworkMsg::Packet(sent), addr });
                assert(self@.unacked =~= old(self)@.unacked.push(p@));
                assert(self@.peers =~= old(self)@.peers);
                assert(effects_view(out@) =~= before + seq![
                    EffectView::Send(MsgView::Packet(p@), addr),
                ]);
            },
            None => {
                assert(effects_view(out@) =~= before + seq![]);
            },
        }
    }

    /// Sends each of `ps` in turn, appending the sends to `out`.
    fn route_all(&mut self, ps: Vec<Packet>, out: &mut Vec<Effect>)
        requires
            old(self).wf(),
        ensures
            final(self).wf(),
            final(self)@ == deliver_all(old(self)@, ps@.map_values(|p: Packet| p@)).0,
            final(self)@.peers == old(self)@.peers,
            effects_view(final(out)@) == effects_view(old(out)@) + deliver_all(
                old(self)@,
                ps@.map_values(|p: Packet| p@),
            ).1,
    {
        let ghost start = self@;
        let ghost before = effects_view(out@);
        let ghost pv = ps@.map_values(|p: Packet| p@);
        let mut i: usize = 0;
        assert(pv.take(0) =~= seq![]);
        assert(effects_view(out@) =~= before + seq![]);
        while i < ps.len()
            invariant
                i <= ps.len(),
                self.wf(),
                pv == ps@.map_values(|p: Packet| p@),
                self@.peers == start.peers,
                self@ == deliver_all(start, pv.take(i as int)).0,
                effects_view(out@) == before + deliver_all(start, pv.take(i as int)).1,
            decreases ps.len() - i,
        {
            let p = ps[i].duplicate();
            self.route(p, out);
            i = i + 1;
            assert(pv.take(i as int).drop_last() =~= pv.take(i - 1));
            assert(effects_view(out@) =~= before + deliver_all(start, pv.take(i as int)).1);
        }
        assert(pv.take(i as int) =~= pv);
    }

    /// Sends `p` if its destination is known: the send is returned and `p` is kept
    /// among the unacknowledged packets.
    pub fn deliver_packet(&mut self, p: Packet) -> (effects: Vec<Effect>)
        requires
            old(self).wf(),
        ensures
            final(self).wf(),
            (final(self)@, effects_view(effects@)) == deliver_step(old(self)@, p@),
    {
        let mut effects: Vec<Effect> = Vec::new();
        assert(effects_view(effects@) =~= seq![]);
        self.route(p, &mut effects);
        assert(effects_view(effects@) =~= deliver_step(old(self)@, p@).1);
        effects
    }

    /// Sends each of `ps` in turn, as `deliver_packet` does.
    pub fn deliver_packets(&mut self, ps: Vec<Packet>) -> (effects: Vec<Effect>)
        requires
            old(self).wf(),
        ensures
            final(self).wf(),
            (final(self)@, effects_view(effects@)) == deliver_all(
                old(self)@,
                ps@.map_values(|p: Packet| p@),
            ),
    {
        let mut effects: Vec<Effect> = Vec::new();
        assert(effects_view(effects@) =~= seq![]);
        self.route_all(ps, &mut effects);
        assert(effects_view(effects@) =~= deliver_all(old(self)@, ps@.map_values(|p: Packet| p@)).1);
        effects
    }

    /// Resends every unacknowledged packet, in order, as `deliver_packet` does; those
    /// whose destination is unknown are dropped.
    pub fn retry(&mut self) -> (effects: Vec<Effect>)
        requires
            old(self).wf(),
        ensures
            final(self).wf(),
            (final(self)@, effects_view(effects@)) == retry_step(old(self)@),
    {
        let mut pending: Vec<Packet> = Vec::new();
        std::mem::swap(&mut pending, &mut self.unacked);
        assert(self@ == (RouterView { unacked: seq![], ..old(self)@ })) by {
            assert(self@.unacked =~= seq![]);
        }
        let mut effects: Vec<Effect> = Vec::new();
        assert(effects_view(effects@) =~= seq![]);
        self.route_all(pending, &mut effects);
        assert(effects_view(effects@) =~= retry_step(old(self)@).1);
        effects
    }

    /// Learns of peer `a` at `addr`. A new peer is sent a `Peer` message for each peer
    /// known so far, then joins the table; a peer already known changes nothing.
    pub fn add_peer(&mut self, a: ActorId, addr: PeerAddr) -> (effects: Vec<Effect>)
        requires
            old(self).wf(),
        ensures
            final(self).wf(),
            (final(self)@, effects_view(effects@)) == add_peer_step(old(self)@, a@, addr),
    {
        let mut effects: Vec<Effect> = Vec::new();
        if self.lookup(&a).is_some() {
            assert(effects_view(effects@) =~= seq![]);
            return effects;
        }
        let ghost peers = self@.peers;
        let mut i: usize = 0;
        while i < self.peers.len()
            invariant
                i <= self.peers.len(),
                peers == self@.peers,
                effects_view(effects@) == peers.take(i as int).map_values(
                    |e: (Seq<u8>, PeerAddr)| EffectView::Send(MsgView::Peer(e.0, e.1), addr),
                ),
            decreases self.peers.len() - i,
        {
            let (pa, paddr) = self.peers[i];
            assert(peers[i as int] == (pa@, paddr));
            let ghost prev = effects@;
            let e = Effect::Send { msg: NetworkMsg::Peer(pa, paddr), addr };
            assert(e@ == EffectView::Send(MsgView::Peer(pa@, paddr), addr));
            effects.push(e);
            assert(effects_view(effects@) =~= effects_view(prev).push(e@));
            i = i + 1;
            assert(peers.take(i as int) =~= peers.take(i - 1).push(peers[i - 1]));
            assert(effects_view(effects@) =~= peers.take(i as int).map_values(
                |e: (Seq<u8>, PeerAddr)| EffectView::Send(MsgView::Peer(e.0, e.1), addr),
            ));
        }
        assert(peers.take(peers.len() as int) =~= peers);
        self.peers.push((a, addr));
        assert(self@.peers =~= peers.push((a@, addr)));
        assert(distinct_actors(self@.peers)) by {
            assert forall|j: int| 0 <= j < peers.len() implies (#[trigger] peers[j]).0 != a@ by {
                if peers[j].0 == a@ {
                    assert(has_actor(peers, a@));
                }
            }
        }
        effects
    }

    /// Settles an acknowledged packet: the first unacknowledged packet equal to `p`, if
    /// any, is forgotten.
    pub fn acked(&mut self, p: &Packet)
        requires
            old(self).wf(),
        ensures
            final(self).wf(),
            final(self)@ == (RouterView { unacked: remove_first(old(self)@.unacked, p@), ..old(self)@ }),
    {
        let ghost s = self@.unacked;
        let mut i: usize = 0;
        while i < self.unacked.len()
            invariant
                i <= self.unacked.len(),
                s == self@.unacked,
                self@ == old(self)@,
                self.wf(),
                forall|j: int| 0 <= j < i ==> s[j] != p@,
            decreases self.unacked.len() - i,
        {
            if self.unacked[i].same(p) {
                proof {
                    lemma_remove_first_at(s, p@, i as int);
                }
                self.unacked.remove(i);
                assert(self@.unacked =~= s.remove(i as int));
                assert(self@.peers =~= old(self)@.peers);
                return;
            }
            i = i + 1;
        }
        proof {
            lemma_remove_first_absent(s, p@);
        }
    }

    /// Introduces this node, `me`, listening at the router's address, to `addr`.
    pub fn say_hello(&self, me: &ActorId, addr: PeerAddr) -> (effects: Vec<Effect>)
        ensures
            effects_view(effects@) == seq![EffectView::Send(MsgView::Peer(me@, self@.addr), addr)],
    {
        let mut effects: Vec<Effect> = Vec::new();
        effects.push(Effect::Send { msg: NetworkMsg::Peer(*me, self.addr), addr });
        assert(effects_view(effects@) =~= seq![EffectView::Send(MsgView::Peer(me@, self@.addr), addr)]);
        effects
    }

    /// Appends to `out` the acknowledgement of `p`, sent back to its source if the
    /// source is known.
    fn ack_into(&self, p: &Packet, out: &mut Vec<Effect>)
        requires
            self.wf(),
        ensures
            effects_view(final(out)@) == effects_view(old(out)@) + ack_effects(self@.peers, p@),
    {
        let ghost before = effects_view(out@);
        match self.lookup(&p.source) {
            Some(addr) => {
                out.push(Effect::Send { msg: NetworkMsg::Ack(p.duplicate()), addr });
                assert(effects_view(out@) =~= before + seq![EffectView::Send(MsgView::Ack(p@), addr)]);
            },
            None => {
                assert(effects_view(out@) =~= before + seq![]);
            },
        }
    }

    /// The acknowledgement of `p`, sent back to its source if the source is known.
    pub fn ack_packet(&self, p: &Packet) -> (effects: Vec<Effect>)
        requires
            self.wf(),
        ensures
            effects_view(effects@) == ack_effects(self@.peers, p@),
    {
        let mut effects: Vec<Effect> = Vec::new();
        assert(effects_view(effects@) =~= seq![]);
        self.ack_into(p, &mut effects);
        assert(effects_view(effects@) =~= ack_effects(self@.peers, p@));
        effects
    }

    /// Finds the actor that the user's `id` designates: this node `me` for `me`,
    /// otherwise the single known peer whose label begins with `id`. When there is no
    /// such single peer, the returned lines tell the user why.
    pub fn resolve_actor(&self, me: &ActorId, id: &String) -> (r: (Option<ActorId>, Vec<Effect>))
        ensures
            found_key(r.0) == resolved(self@.peers, me@, id@),
            effects_view(r.1@) == resolve_notes(self@.peers, me@, id@),
    {
        let idc = string_chars(id);
        let me_text = chars_of("me");
        let mut notes: Vec<Effect> = Vec::new();
        if same_chars(&idc, &me_text) {
            assert(effects_view(notes@) =~= seq![]);
            return (Some(*me), notes);
        }
        let ghost peers = self@.peers;
        let mut found: Vec<ActorId> = Vec::new();
        let mut i: usize = 0;
        while i < self.peers.len()
            invariant
                i <= self.peers.len(),
                peers == self@.peers,
                ids_view(found@) == matching(peers.take(i as int), idc@),
            decreases self.peers.len() - i,
        {
            let a = self.peers[i].0;
            assert(peers[i as int].0 == a@);
            assert(peers.take(i + 1).drop_last() =~= peers.take(i as int));
            if has_prefix(&a.label_chars(), &idc) {
                found.push(a);
                assert(ids_view(found@) =~= matching(peers.take(i as int), idc@).push(a@));
            }
            i = i + 1;
        }
        assert(peers.take(peers.len() as int) =~= peers);
        let ghost m = matching(peers, idc@);
        if found.len() == 1 {
            assert(effects_view(notes@) =~= seq![]);
            assert(m[0] == found@[0]@);
            (Some(found[0]), notes)
        } else if found.len() == 0 {
            notes.push(Effect::Print(text_of(&chars_of("No actors with that actor id"))));
            assert(effects_view(notes@) =~= seq![EffectView::Print("No actors with that actor id"@)]);
            (None, notes)
        } else {
            notes.push(
                Effect::Print(text_of(&chars_of("Ambiguous actor id, more than one actor matches:"))),
            );
            let ghost head = effects_view(notes@);
            let mut j: usize = 0;
            while j < found.len()
                invariant
                    j <= found.len(),
                    ids_view(found@) == m,
                    effects_view(notes@) == head + m.take(j as int).map_values(
                        |a: Seq<u8>| EffectView::Print(actor_label(a)),
                    ),
                decreases found.len() - j,
            {
                let ghost prev = notes@;
                let line = Effect::Print(found[j].label());
                notes.push(line);
                assert(effects_view(notes@) =~= effects_view(prev).push(line@));
                j = j + 1;
                assert(m.take(j as int) =~= m.take(j - 1).push(m[j - 1]));
                assert(effects_view(notes@) =~= head + m.take(j as int).map_values(
                    |a: Seq<u8>| EffectView::Print(actor_label(a)),
                ));
            }
            assert(m.take(m.len() as int) =~= m);
            (None, notes)
        }
    }

    /// The peer listing: every voting member and every known peer, once each, in
    /// increasing order of identity, each with its address if known, whether it votes,
    /// and whether it is this node `me`. `voting` lists the voting members in
    /// increasing order.
    pub fn list_peers(&self, me: &ActorId, voting: &Vec<ActorId>) -> (effects: Vec<Effect>)
        requires
            self.wf(),
            keys_ascending(ids_view(voting@)),
        ensures
            exists|ids: Seq<Seq<u8>>|
                listing_ids_ok(ids, ids_view(voting@), self@.peers) && effects_view(effects@)
                    == listing(self@.peers, me@, ids_view(voting@), ids),
            lines_flag_truly(effects_view(effects@), self@.peers, me@, ids_view(voting@)),
    {
        let ghost peers = self@.peers;
        let ghost vv = ids_view(voting@);
        let mut ids: Vec<ActorId> = Vec::new();
        let mut k: usize = 0;
        while k < voting.len()
            invariant
                k <= voting.len(),
                vv == ids_view(voting@),
                ids_view(ids@) == vv.take(k as int),
            decreases voting.len() - k,
        {
            let ghost prev = ids@;
            ids.push(voting[k]);
            assert(ids_view(ids@) =~= ids_view(prev).push(voting@[k as int]@));
            k = k + 1;
            assert(vv.take(k as int) =~= vv.take(k - 1).push(vv[k - 1]));
            assert(ids_view(ids@) =~= vv.take(k as int));
        }
        assert(vv.take(vv.len() as int) =~= vv);
        let mut i: usize = 0;
        while i < self.peers.len()
            invariant
                i <= self.peers.len(),
                peers == self@.peers,
                vv == ids_view(voting@),
                keys_ascending(ids_view(ids@)),
                forall|x: Seq<u8>| #[trigger]
                    ids_view(ids@).contains(x) <==> (vv.contains(x) || exists|j: int|
                        0 <= j < i && (#[trigger] peers[j]).0 == x),
            decreases self.peers.len() - i,
        {
            let a = self.peers[i].0;
            assert(peers[i as int].0 == a@);
            let ghost before = ids_view(ids@);
            insert_ascending(&mut ids, a);
            i = i + 1;
            assert forall|x: Seq<u8>| #[trigger]
                ids_view(ids@).contains(x) <==> (vv.contains(x) || exists|j: int|
                    0 <= j < i && (#[trigger] peers[j]).0 == x) by {
                if x == a@ {
                    assert(peers[i - 1].0 == x);
                }
                if exists|j: int| 0 <= j < i && (#[trigger] peers[j]).0 == x {
                    let j: int = choose|j: int| 0 <= j < i && (#[trigger] peers[j]).0 == x;
                    if j < i - 1 {
                        assert(before.contains(x));
                    }
                }
                if before.contains(x) && !vv.contains(x) {
                    let j: int = choose|j: int| 0 <= j < i - 1 && (#[trigger] peers[j]).0 == x;
                    assert(0 <= j < i && peers[j].0 == x);
                }
            }
        }
        let ghost iv = ids_view(ids@);
        assert(listing_ids_ok(iv, vv, peers));
        let mut effects: Vec<Effect> = Vec::new();
        let mut n: usize = 0;
        while n < ids.len()
            invariant
                n <= ids.len(),
                iv == ids_view(ids@),
                vv == ids_view(voting@),
                peers == self@.peers,
                self.wf(),
                effects_view(effects@) == listing(peers, me@, vv, iv.take(n as int)),
                lines_flag_truly(effects_view(effects@), peers, me@, vv),
            decreases ids.len() - n,
        {
            let id = ids[n];
            let line = PeerListing {
                actor: id,
                addr: self.lookup(&id),
                voting: contains_actor(voting, &id),
                is_self: id.same(me),
            };
            let ghost prev = effects@;
            let e = Effect::Listing(line);
            assert(iv[n as int] == id@);
            assert(e@ == listing_line(peers, me@, vv, id@));
            effects.push(e);
            assert(effects_view(effects@) =~= effects_view(prev).push(e@));
            n = n + 1;
            assert(iv.take(n as int) =~= iv.take(n - 1).push(iv[n - 1]));
            assert(effects_view(effects@) =~= listing(peers, me@, vv, iv.take(n as int)));
        }
        assert(iv.take(iv.len() as int) =~= iv);
        effects
    }

    /// Carries out `cmd` for `node`: updates the peer table and the unacknowledged
    /// packets, makes the BRB calls the command calls for (changing the node as
    /// `node_change` says), and returns what is to be sent and shown, as `step` says for
    /// the node's voting members and the packets its BRB gives.
    pub fn apply(&mut self, node: &mut BrbNode, cmd: RouterCmd) -> (effects: Vec<Effect>)
        requires
            old(self).wf(),
        ensures
            final(self).wf(),
            final(node).actor_id() == old(node).actor_id(),
            valid_public_key(old(node).actor_id()),
            cmd@ is ListPeers ==> lines_flag_truly(
                effects_view(effects@),
                old(self)@.peers,
                old(node).actor_id(),
                old(node).voting(),
            ),
            node_change(old(self)@, *old(node), cmd@, *final(node)),
            exists|ids: Seq<Seq<u8>>|
                outcome_fits(
                    old(self)@,
                    old(node).actor_id(),
                    cmd@,
                    old(node).voting(),
                    ids,
                    brb_produced(old(self)@, *old(node), cmd@),
                ) && (final(self)@, effects_view(effects@)) == step(
                    old(self)@,
                    old(node).actor_id(),
                    cmd@,
                    old(node).voting(),
                    ids,
                    brb_produced(old(self)@, *old(node), cmd@),
                ),
    {
        let ghost start = self@;
        let ghost c = cmd@;
        let ghost n0 = *node;
        let me = node.actor();
        let ghost mut voting: Seq<Seq<u8>> = n0.voting();
        let ghost mut ids: Seq<Seq<u8>> = seq![];
        let ghost mut produced: Seq<PacketView> = seq![];
        let effects = match cmd {
            RouterCmd::Retry => self.retry(),
            RouterCmd::Debug => {
                let e: Vec<Effect> = Vec::new();
                assert(effects_view(e@) =~= seq![]);
                e
            },
            RouterCmd::AntiEntropy(id) => {
                let (found, notes) = self.resolve_actor(&me, &id);
                match found {
                    Some(a) => {
                        let out = node.anti_entropy(&a);
                        let mut packets: Vec<Packet> = Vec::new();
                        match out {
                            Some(p) => {
                                packets.push(p);
                                assert(packets@.map_values(|p: Packet| p@) =~= seq![p@]);
                            },
                            None => {
                                assert(packets@.map_values(|p: Packet| p@) =~= seq![]);
                            },
                        }
                        proof {
                            produced = packets@.map_values(|p: Packet| p@);
                        }
                        let e = self.deliver_packets(packets);
                        e
                    },
                    None => notes,
                }
            },
            RouterCmd::ListPeers => {
                let members = node.peers();
                let e = self.list_peers(&me, &members);
                proof {
                    voting = ids_view(members@);
                    ids = choose|ids: Seq<Seq<u8>>|
                        listing_ids_ok(ids, voting, start.peers) && effects_view(e@) == listing(
                            start.peers,
                            me@,
                            voting,
                            ids,
                        );
                }
                e
            },
            RouterCmd::RequestJoin(id) => {
                let (found, notes) = self.resolve_actor(&me, &id);
                match found {
                    Some(a) => {
                        let packets = node.request_join(&a);
                        proof {
                            produced = packets@.map_values(|p: Packet| p@);
                        }
                        self.deliver_packets(packets)
                    },
                    None => notes,
                }
            },
            RouterCmd::RequestLeave(id) => {
                let (found, notes) = self.resolve_actor(&me, &id);
                match found {
                    Some(a) => {
                        let packets = node.request_leave(&a);
                        proof {
                            produced = packets@.map_values(|p: Packet| p@);
                        }
                        self.deliver_packets(packets)
                    },
                    None => notes,
                }
            },
            RouterCmd::Trust(id) => {
                let (found, notes) = self.resolve_actor(&me, &id);
                match found {
                    Some(a) => node.trust_peer(&a),
                    None => {},
                }
                notes
            },
            RouterCmd::Untrust(id) => {
                let (found, notes) = self.resolve_actor(&me, &id);
                match found {
                    Some(a) => node.untrust_peer(&a),
                    None => {},
                }
                notes
            },
            RouterCmd::SayHello(addr) => self.say_hello(&me, addr),
            RouterCmd::AddPeer(a, addr) => self.add_peer(a, addr),
            RouterCmd::Deliver(p) => self.deliver_packet(p),
            RouterCmd::Apply(p) => {
                let packets = node.apply(&p);
                proof {
                    produced = packets@.map_values(|p: Packet| p@);
                }
                let mut e: Vec<Effect> = Vec::new();
                assert(effects_view(e@) =~= seq![]);
                let ghost mid = self@;
                self.route_all(packets, &mut e);
                assert(self@.peers == mid.peers);
                self.ack_into(&p, &mut e);
                e
            },
            RouterCmd::Acked(p) => {
                self.acked(&p);
                let e: Vec<Effect> = Vec::new();
                assert(effects_view(e@) =~= seq![]);
                e
            },
        };
        assert(voting == n0.voting());
        assert(produced == brb_produced(start, n0, c));
        assert(outcome_fits(start, me@, c, voting, ids, produced));
        assert((self@, effects_view(effects@)) == step(start, me@, c, voting, ids, produced));
        effects
    }

    /// The router's own address.
    pub fn addr(&self) -> (r: PeerAddr)
        ensures
            r == self@.addr,
    {
        self.addr
    }

    /// The known peers and their addresses.
    pub fn peer_table(&self) -> (r: &Vec<(ActorId, PeerAddr)>)
        ensures
            r@.map_values(|e: (ActorId, PeerAddr)| (e.0@, e.1)) == self@.peers,
    {
        &self.peers
    }

    /// The packets sent and not yet acknowledged, oldest first.
    pub fn unacked_packets(&self) -> (r: &Vec<Packet>)
        ensures
            r@.map_values(|p: Packet| p@) == self@.unacked,
    {
        &self.unacked
    }
}

} // verus!
