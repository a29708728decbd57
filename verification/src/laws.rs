//! What holds of the router across commands: facts about every step and about
//! sequences of steps.
use vstd::prelude::*;
use crate::actor::{
    actor_label, key_lt, keys_ascending, lemma_key_asymmetric, lemma_key_total,
};
use crate::message::{CmdView, MsgView, PacketView, PeerAddr};
use crate::router::{
    add_peer_step, deliver_all, deliver_step, distinct_actors, node_change, has_actor, lemma_lookup_at,
    lemma_remove_first_at, listing, listing_ids_ok, lines_flag_truly, lookup, outcome_fits, matching, remove_first, resolved,
    resolve_notes, retry_step, routable, step, EffectView, RouterView,
};
use crate::node::{valid_public_key, BrbNode};
use crate::text::starts_with;

verus! {

broadcast use vstd::seq_lib::to_multiset_build, vstd::seq_lib::to_multiset_remove;

/// The send of packet `p` to the address of its destination.
pub open spec fn packet_send(peers: Seq<(Seq<u8>, PeerAddr)>, p: PacketView) -> EffectView {
    EffectView::Send(MsgView::Packet(p), lookup(peers, p.dest)->Some_0)
}

/// Every packet awaiting acknowledgement is for a known peer.
pub open spec fn pending_known(r: RouterView) -> bool {
    forall|i: int| 0 <= i < r.unacked.len() ==> has_actor(r.peers, (#[trigger] r.unacked[i]).dest)
}

/// The packets that `routable` keeps are those of `ps` for a known peer.
pub proof fn lemma_routable_members(peers: Seq<(Seq<u8>, PeerAddr)>, ps: Seq<PacketView>)
    ensures
        forall|i: int|
            0 <= i < routable(peers, ps).len() ==> has_actor(
                peers,
                (#[trigger] routable(peers, ps)[i]).dest,
            ) && ps.contains(routable(peers, ps)[i]),
    decreases ps.len(),
{
    if ps.len() > 0 {
        lemma_routable_members(peers, ps.drop_last());
        let rest = routable(peers, ps.drop_last());
        assert forall|i: int| 0 <= i < rest.len() implies ps.contains(#[trigger] rest[i]) by {
            let k: int = choose|k: int| 0 <= k < ps.drop_last().len() && ps.drop_last()[k] == rest[i];
            assert(ps[k] == rest[i]);
        }
        assert(ps[ps.len() - 1] == ps.last());
    }
}

/// Sending packets one after the other keeps the peers and the address, appends the
/// packets for known peers to the unacknowledged ones, and sends exactly those, each
/// to its destination's address.
pub proof fn lemma_deliver_all(r: RouterView, ps: Seq<PacketView>)
    ensures
        deliver_all(r, ps).0 == (RouterView {
            unacked: r.unacked + routable(r.peers, ps),
            ..r
        }),
        deliver_all(r, ps).1 == routable(r.peers, ps).map_values(
            |p: PacketView| packet_send(r.peers, p),
        ),
    decreases ps.len(),
{
    if ps.len() == 0 {
        assert(r.unacked + routable(r.peers, ps) =~= r.unacked);
        assert(routable(r.peers, ps).map_values(|p: PacketView| packet_send(r.peers, p)) =~= seq![]);
    } else {
        lemma_deliver_all(r, ps.drop_last());
        let rest = routable(r.peers, ps.drop_last());
        let x = ps.last();
        if has_actor(r.peers, x.dest) {
            assert((r.unacked + rest).push(x) =~= r.unacked + rest.push(x));
            assert(rest.map_values(|p: PacketView| packet_send(r.peers, p)) + seq![
                packet_send(r.peers, x),
            ] =~= rest.push(x).map_values(|p: PacketView| packet_send(r.peers, p)));
        } else {
            assert(rest.map_values(|p: PacketView| packet_send(r.peers, p)) + seq![] =~= rest.map_values(
                |p: PacketView| packet_send(r.peers, p),
            ));
        }
    }
}

/// Keeping the packets for known peers twice keeps the same packets as once.
pub proof fn lemma_routable_idempotent(peers: Seq<(Seq<u8>, PeerAddr)>, ps: Seq<PacketView>)
    ensures
        routable(peers, routable(peers, ps)) == routable(peers, ps),
    decreases ps.len(),
{
    if ps.len() > 0 {
        lemma_routable_idempotent(peers, ps.drop_last());
        let rest = routable(peers, ps.drop_last());
        if has_actor(peers, ps.last().dest) {
            assert(rest.push(ps.last()).drop_last() =~= rest);
        }
    }
}

/// The index of the first occurrence of `p` in `s`, searching from `k`.
pub proof fn lemma_first_index(s: Seq<PacketView>, p: PacketView, k: int) -> (i: int)
    requires
        0 <= k <= s.len(),
        forall|j: int| 0 <= j < k ==> s[j] != p,
        s.contains(p),
    ensures
        k <= i < s.len(),
        s[i] == p,
        forall|j: int| 0 <= j < i ==> s[j] != p,
    decreases s.len() - k,
{
    if k == s.len() {
        let j: int = choose|j: int| 0 <= j < s.len() && s[j] == p;
        assert(false);
        k
    } else if s[k] == p {
        k
    } else {
        lemma_first_index(s, p, k + 1)
    }
}

/// The packets that `remove_first` leaves were all in the sequence before.
pub proof fn lemma_remove_first_members(s: Seq<PacketView>, p: PacketView)
    ensures
        forall|i: int|
            0 <= i < remove_first(s, p).len() ==> s.contains(#[trigger] remove_first(s, p)[i]),
    decreases s.len(),
{
    if s.len() > 0 {
        let t = s.drop_first();
        lemma_remove_first_members(t, p);
        let r = remove_first(s, p);
        assert forall|i: int| 0 <= i < r.len() implies s.contains(#[trigger] r[i]) by {
            if s[0] == p {
                assert(r[i] == s[i + 1]);
            } else if i == 0 {
                assert(r[0] == s[0]);
            } else {
                let u = remove_first(t, p);
                assert(r[i] == u[i - 1]);
                let k: int = choose|k: int| 0 <= k < t.len() && t[k] == u[i - 1];
                assert(s[k + 1] == r[i]);
            }
        }
    }
}

/// Law: every packet the router waits an acknowledgement for was sent to a known
/// peer. This holds of a new router and every command keeps it, whatever BRB answers.
pub proof fn law_pending_packets_go_to_known_peers(
    r: RouterView,
    me: Seq<u8>,
    cmd: CmdView,
    voting: Seq<Seq<u8>>,
    ids: Seq<Seq<u8>>,
    produced: Seq<PacketView>,
)
    requires
        pending_known(r),
        distinct_actors(r.peers),
    ensures
        pending_known(step(r, me, cmd, voting, ids, produced).0),
{
    lemma_routable_members(r.peers, produced);
    lemma_routable_members(r.peers, r.unacked);
    lemma_deliver_all(r, produced);
    lemma_deliver_all(RouterView { unacked: seq![], ..r }, r.unacked);
    let after = step(r, me, cmd, voting, ids, produced).0;
    match cmd {
        CmdView::Retry => {
            assert(after.unacked =~= routable(r.peers, r.unacked));
        },
        CmdView::AddPeer(a, addr) => {
            if !has_actor(r.peers, a) {
                assert forall|i: int| 0 <= i < after.unacked.len() implies has_actor(
                    after.peers,
                    (#[trigger] after.unacked[i]).dest,
                ) by {
                    let k: int = choose|k: int|
                        0 <= k < r.peers.len() && (#[trigger] r.peers[k]).0 == r.unacked[i].dest;
                    assert(after.peers[k] == r.peers[k]);
                }
            }
        },
        CmdView::Deliver(p) => {
        },
        CmdView::Acked(p) => {
            lemma_remove_first_members(r.unacked, p);
            assert forall|i: int| 0 <= i < after.unacked.len() implies has_actor(
                after.peers,
                (#[trigger] after.unacked[i]).dest,
            ) by {
                let k: int = choose|k: int| 0 <= k < r.unacked.len() && r.unacked[k] == after.unacked[i];
                assert(has_actor(r.peers, r.unacked[k].dest));
            }
        },
        _ => {
            assert forall|i: int| 0 <= i < after.unacked.len() implies has_actor(
                after.peers,
                (#[trigger] after.unacked[i]).dest,
            ) by {
                if i >= r.unacked.len() {
                    assert(after.unacked[i] == routable(r.peers, produced)[i - r.unacked.len()]);
                }
            }
        },
    }
}

/// Law: the router never forgets a peer, nor changes its own address or a known
/// peer's address, whatever the command and whatever BRB answers.
pub proof fn law_peers_are_never_forgotten(
    r: RouterView,
    me: Seq<u8>,
    cmd: CmdView,
    voting: Seq<Seq<u8>>,
    ids: Seq<Seq<u8>>,
    produced: Seq<PacketView>,
    a: Seq<u8>,
)
    requires
        distinct_actors(r.peers),
        has_actor(r.peers, a),
    ensures
        step(r, me, cmd, voting, ids, produced).0.addr == r.addr,
        lookup(step(r, me, cmd, voting, ids, produced).0.peers, a) == lookup(r.peers, a),
{
    lemma_deliver_all(r, produced);
    lemma_deliver_all(RouterView { unacked: seq![], ..r }, r.unacked);
    match cmd {
        CmdView::AddPeer(b, addr) => {
            if !has_actor(r.peers, b) {
                let after = r.peers.push((b, addr));
                let k: int = choose|k: int| 0 <= k < r.peers.len() && (#[trigger] r.peers[k]).0 == a;
                lemma_lookup_at(r.peers, k);
                assert(after[k] == r.peers[k]);
                assert(distinct_actors(after)) by {
                    assert forall|i: int, j: int| 0 <= i < j < after.len() implies (
                    #[trigger] after[i]).0 != (#[trigger] after[j]).0 by {
                        if j == r.peers.len() {
                            assert(after[i] == r.peers[i]);
                        } else {
                            assert(after[i] == r.peers[i] && after[j] == r.peers[j]);
                        }
                    }
                }
                lemma_lookup_at(after, k);
            }
        },
        _ => {},
    }
}

/// Law: learning of a peer a second time changes nothing and sends nothing.
pub proof fn law_add_peer_is_idempotent(
    r: RouterView,
    a: Seq<u8>,
    addr: PeerAddr,
    addr2: PeerAddr,
)
    ensures
        add_peer_step(add_peer_step(r, a, addr).0, a, addr2) == (add_peer_step(r, a, addr).0, Seq::<
            EffectView,
        >::empty()),
{
    let r1 = add_peer_step(r, a, addr).0;
    if !has_actor(r.peers, a) {
        assert(r1.peers[r.peers.len() as int].0 == a);
    }
    assert(has_actor(r1.peers, a));
}

/// Law: after learning of a peer not yet known, the router knows it at the address it
/// was given, and has told it of every peer it knew before, and of nothing else.
pub proof fn law_new_peer_is_known_and_introduced(r: RouterView, a: Seq<u8>, addr: PeerAddr)
    requires
        distinct_actors(r.peers),
        !has_actor(r.peers, a),
    ensures
        distinct_actors(add_peer_step(r, a, addr).0.peers),
        lookup(add_peer_step(r, a, addr).0.peers, a) == Some(addr),
        add_peer_step(r, a, addr).1.len() == r.peers.len(),
        forall|i: int|
            0 <= i < r.peers.len() ==> #[trigger] add_peer_step(r, a, addr).1[i] == EffectView::Send(
                MsgView::Peer(r.peers[i].0, r.peers[i].1),
                addr,
            ),
{
    let after = add_peer_step(r, a, addr).0.peers;
    assert(distinct_actors(after)) by {
        assert forall|i: int, j: int| 0 <= i < j < after.len() implies (#[trigger] after[i]).0
            != (#[trigger] after[j]).0 by {
            if j == r.peers.len() {
                assert(after[i] == r.peers[i]);
                if r.peers[i].0 == a {
                    assert(has_actor(r.peers, a));
                }
            } else {
                assert(after[i] == r.peers[i] && after[j] == r.peers[j]);
            }
        }
    }
    lemma_lookup_at(after, r.peers.len() as int);
}

/// Law: acknowledging a packet just sent to a known peer undoes the sending: the
/// packets awaiting acknowledgement are the same as before, counted with their
/// multiplicity, and the very same sequence when that packet was not already awaited.
pub proof fn law_ack_undoes_delivery(r: RouterView, me: Seq<u8>, p: PacketView)
    requires
        has_actor(r.peers, p.dest),
    ensures
        ({
            let sent = step(r, me, CmdView::Deliver(p), seq![], seq![], seq![]).0;
            let settled = step(sent, me, CmdView::Acked(p), seq![], seq![], seq![]).0;
            &&& settled.peers == r.peers
            &&& settled.unacked.to_multiset() == r.unacked.to_multiset()
            &&& (!r.unacked.contains(p) ==> settled.unacked == r.unacked)
        }),
{
    let s = r.unacked.push(p);
    assert(s[r.unacked.len() as int] == p);
    let i: int = lemma_first_index(s, p, 0);
    lemma_remove_first_at(s, p, i);
    assert(s.remove(i).to_multiset() == s.to_multiset().remove(p));
    assert(s.to_multiset() == r.unacked.to_multiset().insert(p));
    assert(r.unacked.to_multiset().insert(p).remove(p) =~= r.unacked.to_multiset());
    if !r.unacked.contains(p) {
        if i < r.unacked.len() {
            assert(r.unacked[i] == p);
        }
        assert(s.remove(i) =~= r.unacked);
    }
}

/// Law: resending twice leaves the router as resending once does, and the second
/// resend sends the same packets again, to the same addresses.
pub proof fn law_retry_twice_is_retry_once(r: RouterView)
    ensures
        retry_step(retry_step(r).0).0 == retry_step(r).0,
        retry_step(retry_step(r).0).1 == retry_step(r).1,
{
    let r0 = RouterView { unacked: seq![], ..r };
    lemma_deliver_all(r0, r.unacked);
    let r1 = retry_step(r).0;
    assert(r0.unacked + routable(r.peers, r.unacked) =~= routable(r.peers, r.unacked));
    let r10 = RouterView { unacked: seq![], ..r1 };
    lemma_deliver_all(r10, r1.unacked);
    lemma_routable_idempotent(r.peers, r.unacked);
    assert(r10.unacked + routable(r1.peers, r1.unacked) =~= routable(r.peers, r.unacked));
    assert(r10 == r0);
}

/// The peers whose label starts with `id` are the known peers with that property.
pub proof fn lemma_matching_members(peers: Seq<(Seq<u8>, PeerAddr)>, id: Seq<char>)
    ensures
        forall|x: Seq<u8>| #[trigger]
            matching(peers, id).contains(x) <==> (has_actor(peers, x) && starts_with(
                actor_label(x),
                id,
            )),
    decreases peers.len(),
{
    if peers.len() > 0 {
        let init = peers.drop_last();
        lemma_matching_members(init, id);
        let m = matching(peers, id);
        let rest = matching(init, id);
        assert forall|x: Seq<u8>| #[trigger]
            m.contains(x) <==> (has_actor(peers, x) && starts_with(actor_label(x), id)) by {
            if m.contains(x) {
                let k: int = choose|k: int| 0 <= k < m.len() && m[k] == x;
                if k < rest.len() {
                    assert(rest[k] == x);
                    assert(rest.contains(x));
                    let j: int = choose|j: int| 0 <= j < init.len() && (#[trigger] init[j]).0 == x;
                    assert(peers[j] == init[j]);
                } else {
                    assert(peers[peers.len() - 1].0 == x);
                }
            }
            if has_actor(peers, x) && starts_with(actor_label(x), id) {
                let j: int = choose|j: int| 0 <= j < peers.len() && (#[trigger] peers[j]).0 == x;
                if j < init.len() {
                    assert(init[j] == peers[j]);
                    assert(has_actor(init, x));
                    assert(rest.contains(x));
                    let k: int = choose|k: int| 0 <= k < rest.len() && rest[k] == x;
                    assert(m[k] == x);
                } else {
                    assert(m[m.len() - 1] == x);
                }
            }
        }
    }
}

/// The peers whose label starts with `id` are listed once each when the table holds
/// each peer once.
pub proof fn lemma_matching_distinct(peers: Seq<(Seq<u8>, PeerAddr)>, id: Seq<char>)
    requires
        distinct_actors(peers),
    ensures
        matching(peers, id).no_duplicates(),
    decreases peers.len(),
{
    if peers.len() > 0 {
        let init = peers.drop_last();
        assert(distinct_actors(init)) by {
            assert forall|i: int, j: int| 0 <= i < j < init.len() implies (#[trigger] init[i]).0
                != (#[trigger] init[j]).0 by {
                assert(init[i] == peers[i] && init[j] == peers[j]);
            }
        }
        lemma_matching_distinct(init, id);
        lemma_matching_members(init, id);
        let x = peers.last().0;
        if matching(init, id).contains(x) {
            let j: int = choose|j: int| 0 <= j < init.len() && (#[trigger] init[j]).0 == x;
            assert(peers[j].0 == peers[peers.len() - 1].0);
        }
    }
}

/// Law: a name designates an actor only when it is `me` (this node) or when exactly
/// one known peer has a label that starts with it; that peer is the one designated.
pub proof fn law_names_designate_one_actor(
    peers: Seq<(Seq<u8>, PeerAddr)>,
    me: Seq<u8>,
    id: Seq<char>,
    x: Seq<u8>,
)
    requires
        distinct_actors(peers),
        resolved(peers, me, id) == Some(x),
        id != "me"@,
    ensures
        has_actor(peers, x),
        starts_with(actor_label(x), id),
        forall|y: Seq<u8>|
            has_actor(peers, y) && #[trigger] starts_with(actor_label(y), id) ==> y == x,
{
    lemma_matching_members(peers, id);
    lemma_matching_distinct(peers, id);
    let m = matching(peers, id);
    assert(m.contains(x)) by {
        assert(m[0] == x);
    }
    assert forall|y: Seq<u8>| has_actor(peers, y) && #[trigger] starts_with(actor_label(y), id)
        implies y == x by {
        assert(m.contains(y));
        let k: int = choose|k: int| 0 <= k < m.len() && m[k] == y;
    }
}

/// In an increasing list no identity occurs twice.
proof fn lemma_ascending_distinct(ids: Seq<Seq<u8>>, i: int, j: int)
    requires
        keys_ascending(ids),
        0 <= i < ids.len(),
        0 <= j < ids.len(),
        i != j,
    ensures
        ids[i] != ids[j],
{
    if i < j {
        assert(key_lt(ids[i], ids[j]));
    } else {
        assert(key_lt(ids[j], ids[i]));
    }
    lemma_key_asymmetric(ids[i], ids[i]);
    lemma_key_asymmetric(ids[j], ids[j]);
}

/// Two increasing lists of the same identities agree up to position `k`.
proof fn lemma_listings_agree(a: Seq<Seq<u8>>, b: Seq<Seq<u8>>, k: int)
    requires
        keys_ascending(a),
        keys_ascending(b),
        forall|x: Seq<u8>| #[trigger] a.contains(x) <==> b.contains(x),
        forall|x: Seq<u8>| #[trigger] a.contains(x) ==> x.len() == 32,
        0 <= k <= a.len(),
        k <= b.len(),
    ensures
        forall|j: int| 0 <= j < k ==> a[j] == b[j],
    decreases k,
{
    if k > 0 {
        lemma_listings_agree(a, b, k - 1);
        let i = k - 1;
        let x = a[i];
        let y = b[i];
        assert(a.contains(x));
        assert(b.contains(y));
        assert(a.contains(y));
        lemma_key_total(x, y);
        if x != y {
            if key_lt(x, y) {
                let m: int = choose|m: int| 0 <= m < b.len() && b[m] == x;
                if m < i {
                    lemma_ascending_distinct(a, m, i);
                } else if m > i {
                    assert(key_lt(y, x));
                    lemma_key_asymmetric(x, y);
                }
            } else {
                let m: int = choose|m: int| 0 <= m < a.len() && a[m] == y;
                if m < i {
                    assert(a[m] == b[m]);
                    lemma_ascending_distinct(b, m, i);
                } else if m > i {
                    assert(key_lt(x, y));
                }
            }
        }
    }
}

/// Law: the peer listing is determined: there is only one increasing list of the
/// voting members and known peers (keys being 32 bytes long).
pub proof fn law_listing_order_is_determined(
    a: Seq<Seq<u8>>,
    b: Seq<Seq<u8>>,
    voting: Seq<Seq<u8>>,
    peers: Seq<(Seq<u8>, PeerAddr)>,
)
    requires
        listing_ids_ok(a, voting, peers),
        listing_ids_ok(b, voting, peers),
        forall|x: Seq<u8>| #[trigger] voting.contains(x) ==> x.len() == 32,
        forall|i: int| 0 <= i < peers.len() ==> (#[trigger] peers[i]).0.len() == 32,
    ensures
        a == b,
{
    assert forall|x: Seq<u8>| #[trigger] a.contains(x) implies x.len() == 32 by {
        if !voting.contains(x) {
            let i: int = choose|i: int| 0 <= i < peers.len() && (#[trigger] peers[i]).0 == x;
        }
    }
    assert forall|x: Seq<u8>| #[trigger] a.contains(x) <==> b.contains(x) by {
        if a.contains(x) {
            assert(voting.contains(x) || has_actor(peers, x));
        }
        if b.contains(x) {
            assert(voting.contains(x) || has_actor(peers, x));
        }
    }
    if a.len() <= b.len() {
        lemma_listings_agree(a, b, a.len() as int);
        if a.len() < b.len() {
            let x = b[a.len() as int];
            assert(b.contains(x));
            assert(a.contains(x));
            let m: int = choose|m: int| 0 <= m < a.len() && a[m] == x;
            lemma_ascending_distinct(b, m, a.len() as int);
        }
    } else {
        assert forall|x: Seq<u8>| #[trigger] b.contains(x) implies x.len() == 32 by {
            assert(a.contains(x));
        }
        lemma_listings_agree(b, a, b.len() as int);
        let x = a[b.len() as int];
        assert(a.contains(x));
        assert(b.contains(x));
        let m: int = choose|m: int| 0 <= m < b.len() && b[m] == x;
        lemma_ascending_distinct(a, m, b.len() as int);
    }
    assert(a =~= b);
}

/// Law: a packet the router sends is kept among the packets awaiting acknowledgement,
/// and goes to the address of its destination.
pub proof fn law_sent_packets_are_awaited(r: RouterView, p: PacketView)
    requires
        has_actor(r.peers, p.dest),
    ensures
        deliver_step(r, p).0.unacked == r.unacked.push(p),
        deliver_step(r, p).1 == seq![packet_send(r.peers, p)],
{
}


/// Keeping the packets for known peers keeps no more packets than there were.
pub proof fn lemma_routable_len(peers: Seq<(Seq<u8>, PeerAddr)>, ps: Seq<PacketView>)
    ensures
        routable(peers, ps).len() <= ps.len(),
    decreases ps.len(),
{
    if ps.len() > 0 {
        lemma_routable_len(peers, ps.drop_last());
    }
}

/// Law: trusting, untrusting, listing and dumping are local: they change neither the
/// peer table nor the packets awaiting acknowledgement, and send nothing.
pub proof fn law_local_commands_send_nothing(
    r: RouterView,
    me: Seq<u8>,
    cmd: CmdView,
    voting: Seq<Seq<u8>>,
    ids: Seq<Seq<u8>>,
    produced: Seq<PacketView>,
)
    requires
        cmd is Trust || cmd is Untrust || cmd is ListPeers || cmd is Debug,
    ensures
        step(r, me, cmd, voting, ids, produced).0 == r,
        forall|i: int|
            0 <= i < step(r, me, cmd, voting, ids, produced).1.len() ==> !(#[trigger] step(
                r,
                me,
                cmd,
                voting,
                ids,
                produced,
            ).1[i] is Send),
{
    let e = step(r, me, cmd, voting, ids, produced).1;
    match cmd {
        CmdView::Trust(id) => {
            assert(e == resolve_notes(r.peers, me, id));
        },
        CmdView::Untrust(id) => {
            assert(e == resolve_notes(r.peers, me, id));
        },
        CmdView::ListPeers => {
            assert(e == listing(r.peers, me, voting, ids));
        },
        _ => {},
    }
    assert forall|i: int| 0 <= i < e.len() implies !(#[trigger] e[i] is Send) by {
        match cmd {
            CmdView::Trust(id) => {
                if id != "me"@ && matching(r.peers, id).len() > 1 {
                    if i > 0 {
                        let m = matching(r.peers, id);
                        assert(e[i] == m.map_values(
                            |a: Seq<u8>| EffectView::Print(actor_label(a)),
                        )[i - 1]);
                    }
                }
            },
            CmdView::Untrust(id) => {
                if id != "me"@ && matching(r.peers, id).len() > 1 {
                    if i > 0 {
                        let m = matching(r.peers, id);
                        assert(e[i] == m.map_values(
                            |a: Seq<u8>| EffectView::Print(actor_label(a)),
                        )[i - 1]);
                    }
                }
            },
            _ => {},
        }
    }
}

/// Law: an anti-entropy request sends at most one message (the first effect, if
/// any), and only to the address of the actor that the name designates.
pub proof fn law_anti_entropy_asks_only_the_named_peer(
    r: RouterView,
    me: Seq<u8>,
    id: Seq<char>,
    voting: Seq<Seq<u8>>,
    ids: Seq<Seq<u8>>,
    produced: Seq<PacketView>,
)
    requires
        outcome_fits(r, me, CmdView::AntiEntropy(id), voting, ids, produced),
    ensures
        ({
            let e = step(r, me, CmdView::AntiEntropy(id), voting, ids, produced).1;
            forall|i: int|
                0 <= i < e.len() && (#[trigger] e[i]) is Send ==> i == 0 && resolved(
                    r.peers,
                    me,
                    id,
                ) is Some && e[i]->Send_1 == lookup(r.peers, resolved(r.peers, me, id)->Some_0)->Some_0
        }),
{
    let e = step(r, me, CmdView::AntiEntropy(id), voting, ids, produced).1;
    match resolved(r.peers, me, id) {
        Some(x) => {
            lemma_deliver_all(r, produced);
            lemma_routable_len(r.peers, produced);
            lemma_routable_members(r.peers, produced);
            let kept = routable(r.peers, produced);
            assert(e == kept.map_values(|p: PacketView| packet_send(r.peers, p)));
            assert forall|i: int| 0 <= i < e.len() && (#[trigger] e[i]) is Send implies i == 0
                && e[i]->Send_1 == lookup(r.peers, x)->Some_0 by {
                assert(produced.contains(kept[i]));
                let k: int = choose|k: int| 0 <= k < produced.len() && produced[k] == kept[i];
                assert(Some(produced[k].dest) == resolved(r.peers, me, id));
            }
        },
        None => {
            assert(e == resolve_notes(r.peers, me, id));
            assert forall|i: int| 0 <= i < e.len() implies !(#[trigger] e[i] is Send) by {
                if id != "me"@ && matching(r.peers, id).len() > 1 && i > 0 {
                    let m = matching(r.peers, id);
                    assert(e[i] == m.map_values(
                        |a: Seq<u8>| EffectView::Print(actor_label(a)),
                    )[i - 1]);
                }
            }
        },
    }
}

/// Law: a node that trusts itself (`trust me`) at generation 0 becomes a voting member
/// of its own group: its voting members are those it had, and itself.
pub proof fn law_trusting_oneself_makes_a_voting_member(r: RouterView, n0: BrbNode, n1: BrbNode)
    requires
        valid_public_key(n0.actor_id()),
        n0.generation() == 0,
        node_change(r, n0, CmdView::Trust("me"@), n1),
    ensures
        n1.actor_id() == n0.actor_id(),
        n1.voting().to_set() == n0.voting().to_set().insert(n0.actor_id()),
        n1.voting().contains(n0.actor_id()),
{
    assert(n1.voting().to_set().contains(n0.actor_id()));
}

/// Law: untrusting an actor undoes trusting it. When `key` was not a voting member,
/// trusting and then untrusting it leaves the node with the voting members, identity,
/// values and generation it had; with a valid key the node is then the one that
/// untrusting alone gives, and with another key it is unchanged.
pub proof fn law_untrust_undoes_trust(n0: BrbNode, n1: BrbNode, n2: BrbNode, key: Seq<u8>)
    requires
        BrbNode::trusted(n0, n1, key),
        BrbNode::untrusted(n1, n2, key),
        !n0.voting().to_set().contains(key),
    ensures
        n2.voting().to_set() == n0.voting().to_set(),
        n2.actor_id() == n0.actor_id(),
        n2.values() == n0.values(),
        n2.generation() == n0.generation(),
        valid_public_key(key) ==> n2 == n0.after_untrust(key),
        !valid_public_key(key) ==> n2 == n0,
{
    if valid_public_key(key) {
        assert(n2 == n0.after_untrust(key));
        assert(n0.voting().to_set().remove(key) =~= n0.voting().to_set());
    }
}

/// Law: trusting an actor undoes untrusting it. When `key` was a voting member,
/// untrusting and then trusting it leaves the node with the voting members, identity,
/// values and generation it had; with a valid key the node is then the one that
/// trusting alone gives, and with another key it is unchanged.
pub proof fn law_trust_undoes_untrust(n0: BrbNode, n1: BrbNode, n2: BrbNode, key: Seq<u8>)
    requires
        BrbNode::untrusted(n0, n1, key),
        BrbNode::trusted(n1, n2, key),
        n0.voting().to_set().contains(key),
    ensures
        n2.voting().to_set() == n0.voting().to_set(),
        n2.actor_id() == n0.actor_id(),
        n2.values() == n0.values(),
        n2.generation() == n0.generation(),
        valid_public_key(key) ==> n2 == n0.after_trust(key),
        !valid_public_key(key) ==> n2 == n0,
{
    if valid_public_key(key) {
        assert(n2 == n0.after_trust(key));
        assert(n0.voting().to_set().insert(key) =~= n0.voting().to_set());
    }
}

/// Law: in the peer listing, a line is flagged voting exactly when its actor is among
/// the voting members, and flagged as this node exactly when it is this node; each
/// line carries the address known for its actor.
pub proof fn law_listing_flags_are_true(
    peers: Seq<(Seq<u8>, PeerAddr)>,
    me: Seq<u8>,
    voting: Seq<Seq<u8>>,
    ids: Seq<Seq<u8>>,
)
    ensures
        lines_flag_truly(listing(peers, me, voting, ids), peers, me, voting),
{
}

} // verus!
