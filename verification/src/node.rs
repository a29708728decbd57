//! The node's replicated state: a deterministic BRB instance over an ORSWOT set of
//! values, with the operations the router and the console use.
use vstd::prelude::*;
use brb::membership::actor::ed25519::{Actor, Sig, SigningActor};
use brb_dt_orswot::BRBOrswot;
use ed25519_dalek::PublicKey;
use crate::actor::{keys_ascending, ActorId};
use crate::message::{Packet, PacketView};
use crate::router::ids_view;

verus! {

/// A BRB member's identity, as the BRB crate holds it.
#[verifier::external_type_specification]
#[verifier::external_body]
pub struct ExActor(Actor);

/// An operation on the replicated set of values (an ORSWOT add or remove).
#[verifier::external_type_specification]
#[verifier::external_body]
#[verifier::reject_recursive_types(M)]
#[verifier::reject_recursive_types(A)]
pub struct ExOrswotOp<M, A: Ord>(crdts::orswot::Op<M, A>);

/// An operation on the node's set of values.
pub type DataOp = crdts::orswot::Op<u64, Actor>;

/// A BRB instance: membership, pending agreements and the replicated set, held whole
/// and reached only through the operations below. BRB's answers are
/// functions of the instance and the arguments: signing is deterministic ed25519, and
/// BRB only iterates ordered collections.
#[verifier::external_body]
pub struct BrbState {
    inner: brb::DeterministicBRB<Actor, SigningActor, Sig, BRBOrswot<Actor, u64>>,
}

/// The key bytes of a BRB instance's own identity. It is drawn when the instance is
/// made, and no operation changes it (`membership.id` is only ever set by `new`).
pub uninterp spec fn brb_identity(s: BrbState) -> Seq<u8>;

/// The values in a BRB instance's replicated set (what `BRBOrswot::read` returns).
pub uninterp spec fn brb_values(s: BrbState) -> Set<u64>;

/// The voting members that `DeterministicBRB::peers` reports, in increasing order of
/// key; empty when it reports an error.
pub uninterp spec fn brb_voting(s: BrbState) -> Seq<Seq<u8>>;

/// A BRB instance's membership generation (`membership.gen`).
pub uninterp spec fn brb_generation(s: BrbState) -> nat;

/// Whether `key` is an ed25519 public key that `PublicKey::from_bytes` accepts.
pub uninterp spec fn valid_public_key(key: Seq<u8>) -> bool;

/// The state after `force_join` of the actor with key `key` (when the key is valid).
pub uninterp spec fn brb_trust_next(s: BrbState, key: Seq<u8>) -> BrbState;

/// The state after `force_leave` of the actor with key `key` (when the key is valid).
pub uninterp spec fn brb_untrust_next(s: BrbState, key: Seq<u8>) -> BrbState;

/// The packets that `request_membership` for the actor with key `key` gives, as the
/// wrapper below returns them (`None` on refusal).
pub uninterp spec fn brb_join_out(s: BrbState, key: Seq<u8>) -> Option<Seq<PacketView>>;

/// The state after `request_membership` for the actor with key `key`.
pub uninterp spec fn brb_join_next(s: BrbState, key: Seq<u8>) -> BrbState;

/// The packets that `kill_peer` for the actor with key `key` gives (`None` on refusal).
pub uninterp spec fn brb_leave_out(s: BrbState, key: Seq<u8>) -> Option<Seq<PacketView>>;

/// The state after `kill_peer` for the actor with key `key`.
pub uninterp spec fn brb_leave_next(s: BrbState, key: Seq<u8>) -> BrbState;

/// The packet that `anti_entropy` towards the actor with key `key` gives.
pub uninterp spec fn brb_anti_entropy_out(s: BrbState, key: Seq<u8>) -> Option<PacketView>;

/// The operation that `BRBOrswot::add` makes for value `v`.
pub uninterp spec fn brb_add_op_of(s: BrbState, v: u64) -> DataOp;

/// The operation that `BRBOrswot::rm` makes for value `v`.
pub uninterp spec fn brb_rm_op_of(s: BrbState, v: u64) -> DataOp;

/// The packets that `exec_op` of `op` gives (`None` on refusal).
pub uninterp spec fn brb_exec_out(s: BrbState, op: DataOp) -> Option<Seq<PacketView>>;

/// The state after `exec_op` of `op`.
pub uninterp spec fn brb_exec_next(s: BrbState, op: DataOp) -> BrbState;

/// The packets that `handle_packet` of the packet encoded by `body` gives (`None` when
/// the body does not decode or BRB refuses it).
pub uninterp spec fn brb_handle_out(s: BrbState, body: Seq<u8>) -> Option<Seq<PacketView>>;

/// The state after `handle_packet` of the packet encoded by `body`.
pub uninterp spec fn brb_handle_next(s: BrbState, body: Seq<u8>) -> BrbState;

/// A list of packets as mathematical values.
pub open spec fn packets_view(v: Seq<Packet>) -> Seq<PacketView> {
    v.map_values(|p: Packet| p@)
}

/// An optional list of packets as mathematical values.
pub open spec fn opt_packets_view(o: Option<Vec<Packet>>) -> Option<Seq<PacketView>> {
    match o {
        Some(v) => Some(packets_view(v@)),
        None => None,
    }
}

/// The packets of an answer, none when it is a refusal.
pub open spec fn answer_packets(o: Option<Seq<PacketView>>) -> Seq<PacketView> {
    match o {
        Some(v) => v,
        None => Seq::<PacketView>::empty(),
    }
}

/// The destinations of `packets`, in order.
pub open spec fn dests(packets: Seq<PacketView>) -> Seq<Seq<u8>> {
    packets.map_values(|p: PacketView| p.dest)
}

/// The members of `voting` other than `me`, in order.
pub open spec fn others(voting: Seq<Seq<u8>>, me: Seq<u8>) -> Seq<Seq<u8>> {
    voting.filter(|k: Seq<u8>| k != me)
}

/// Leaving out an actor that is not a member leaves the members as they are.
pub proof fn lemma_others_without_me(voting: Seq<Seq<u8>>, me: Seq<u8>)
    requires
        !voting.contains(me),
    ensures
        others(voting, me) == voting,
    decreases voting.len(),
{
    reveal(Seq::filter);
    if voting.len() > 0 {
        let rest = voting.drop_last();
        if rest.contains(me) {
            let i: int = choose|i: int| 0 <= i < rest.len() && rest[i] == me;
            assert(voting[i] == me);
        }
        lemma_others_without_me(rest, me);
        assert(rest.push(voting.last()) =~= voting);
    }
}

/// The shapes BRB's replies to a packet take, by their destinations `d`: all to one
/// actor (the packet's source, or the author of the agreed operation), or a vote to
/// each voting member `voting` once, in increasing order, or a proof of agreement to
/// each member of the operation's generation and to this node `me`, once each, in
/// increasing order.
pub open spec fn reply_shape(d: Seq<Seq<u8>>, voting: Seq<Seq<u8>>, me: Seq<u8>) -> bool {
    ||| forall|i: int, j: int| 0 <= i < d.len() && 0 <= j < d.len() ==> d[i] == d[j]
    ||| d == voting
    ||| keys_ascending(d) && d.contains(me)
}

/// Every packet of `packets` bears `a` as its source.
pub open spec fn all_from(packets: Seq<Packet>, a: Seq<u8>) -> bool {
    forall|i: int| 0 <= i < packets.len() ==> (#[trigger] packets[i]).source@ == a
}

/// No packet of `packets` is addressed to `a`.
pub open spec fn none_to(packets: Seq<Packet>, a: Seq<u8>) -> bool {
    forall|i: int| 0 <= i < packets.len() ==> (#[trigger] packets[i]).dest@ != a
}

/// `DeterministicBRB::new`: a fresh instance with a newly drawn signing key, at
/// generation 0, with no voting member (no forced reconfiguration, so `peers` reports
/// the empty set) and an empty set of values (a default ORSWOT). Its identity is the
/// public half of that key, whose bytes `PublicKey::from_bytes` accepts again.
#[verifier::external_body]
fn brb_new() -> (r: BrbState)
    ensures
        valid_public_key(brb_identity(r)),
        brb_generation(r) == 0,
        brb_voting(r) == Seq::<Seq<u8>>::empty(),
        brb_values(r) == Set::<u64>::empty(),
{
    BrbState { inner: brb::DeterministicBRB::new() }
}

/// `DeterministicBRB::actor`: the instance's own identity, the bytes of a real public
/// key, which `PublicKey::from_bytes` accepts again.
#[verifier::external_body]
fn brb_actor(s: &BrbState) -> (r: ActorId)
    ensures
        r@ == brb_identity(*s),
        valid_public_key(r@),
{
    ActorId { key: s.inner.actor().0.to_bytes() }
}

/// `DeterministicBRB::peers`: the voting members of the current generation, or
/// `None` when the membership history cannot be read. They come from a `BTreeSet`,
/// whose iteration is ascending, under the actors' order, which compares key bytes.
#[verifier::external_body]
fn brb_peers(s: &BrbState) -> (r: Option<Vec<ActorId>>)
    ensures
        match r {
            Some(v) => keys_ascending(ids_view(v@)) && ids_view(v@) == brb_voting(*s),
            None => brb_voting(*s) == Seq::<Seq<u8>>::empty(),
        },
{
    let set = s.inner.peers().ok()?;
    Some(set.iter().map(|a| ActorId { key: a.0.to_bytes() }).collect())
}

/// `DeterministicBRB::force_join` on the actor with key `a`; `false`, and nothing
/// done, when `PublicKey::from_bytes` refuses the key. It only records a join for the
/// current generation and drops a recorded leave of `a` (identity, generation and
/// values stay). At generation 0 the members are the forced joins less the forced
/// leaves, so `a` is then added to them. At a later generation the members are those
/// of the history with the current generation's forced records applied before that
/// generation's votes, and each record or vote only adds or removes its own actor:
/// so the members gain at most `a` and lose none. Only the record for `a` at the
/// current generation changes, so trusting again changes nothing, trusting after
/// untrusting leaves the instance as trusting alone does, and untrusting after this
/// trust leaves it as untrusting alone would, whose members are the old ones, less
/// at most `a`.
#[verifier::external_body]
fn brb_force_join(s: &mut BrbState, a: &ActorId) -> (r: bool)
    ensures
        r == valid_public_key(a@),
        !r ==> *final(s) == *old(s),
        r ==> *final(s) == brb_trust_next(*old(s), a@),
        r ==> brb_trust_next(*final(s), a@) == *final(s),
        r ==> brb_trust_next(brb_untrust_next(*old(s), a@), a@) == *final(s),
        r ==> brb_untrust_next(*final(s), a@) == brb_untrust_next(*old(s), a@),
        brb_identity(*final(s)) == brb_identity(*old(s)),
        brb_values(*final(s)) == brb_values(*old(s)),
        brb_generation(*final(s)) == brb_generation(*old(s)),
        r && brb_generation(*old(s)) == 0 ==> brb_voting(*final(s)).to_set() == brb_voting(
            *old(s),
        ).to_set().insert(a@),
        r ==> brb_voting(*old(s)).to_set().subset_of(brb_voting(*final(s)).to_set()),
        r ==> brb_voting(*final(s)).to_set().subset_of(
            brb_voting(*old(s)).to_set().insert(a@),
        ),
        r ==> brb_voting(*old(s)).to_set().remove(a@).subset_of(
            brb_voting(brb_untrust_next(*final(s), a@)).to_set(),
        ),
        r ==> brb_voting(brb_untrust_next(*final(s), a@)).to_set().subset_of(
            brb_voting(*old(s)).to_set(),
        ),
{
    match PublicKey::from_bytes(&a.key) {
        Ok(k) => {
            s.inner.force_join(Actor(k));
            true
        },
        Err(_) => false,
    }
}

/// `DeterministicBRB::force_leave` on the actor with key `a`; `false`, and nothing
/// done, when `PublicKey::from_bytes` refuses the key. It only records a leave for the
/// current generation and drops a recorded join of `a`; at generation 0, `a` is then
/// no longer a member; at a later generation the members lose at most `a` and gain
/// none (as for `force_join`). Only the record for `a` at the current generation
/// changes, so untrusting again changes nothing, untrusting after trusting leaves the
/// instance as untrusting alone does, and trusting after this untrust leaves it as
/// trusting alone would, whose members are the old ones with at most `a` added.
#[verifier::external_body]
fn brb_force_leave(s: &mut BrbState, a: &ActorId) -> (r: bool)
    ensures
        r == valid_public_key(a@),
        !r ==> *final(s) == *old(s),
        r ==> *final(s) == brb_untrust_next(*old(s), a@),
        r ==> brb_untrust_next(*final(s), a@) == *final(s),
        r ==> brb_untrust_next(brb_trust_next(*old(s), a@), a@) == *final(s),
        r ==> brb_trust_next(*final(s), a@) == brb_trust_next(*old(s), a@),
        brb_identity(*final(s)) == brb_identity(*old(s)),
        brb_values(*final(s)) == brb_values(*old(s)),
        brb_generation(*final(s)) == brb_generation(*old(s)),
        r && brb_generation(*old(s)) == 0 ==> brb_voting(*final(s)).to_set() == brb_voting(
            *old(s),
        ).to_set().remove(a@),
        r ==> brb_voting(*old(s)).to_set().remove(a@).subset_of(brb_voting(*final(s)).to_set()),
        r ==> brb_voting(*final(s)).to_set().subset_of(brb_voting(*old(s)).to_set()),
        r ==> brb_voting(*old(s)).to_set().subset_of(
            brb_voting(brb_trust_next(*final(s), a@)).to_set(),
        ),
        r ==> brb_voting(brb_trust_next(*final(s), a@)).to_set().subset_of(
            brb_voting(*old(s)).to_set().insert(a@),
        ),
{
    match PublicKey::from_bytes(&a.key) {
        Ok(k) => {
            s.inner.force_leave(Actor(k));
            true
        },
        Err(_) => false,
    }
}

/// `DeterministicBRB::request_membership` for the actor with key `a`: the vote
/// packets to send, each with its source, destination and bincode encoding; `None`
/// when the key is invalid (nothing is then done), the proposal is refused or a packet
/// cannot be encoded. Every packet BRB makes comes from its `send`, which signs it as
/// the instance itself; the replicated set is not touched. The proposal is a vote of
/// this instance, which `validate_vote` accepts only from a member of the current
/// generation, and `cast_vote` broadcasts it to each member of that generation (a
/// `BTreeSet`, so once each, in increasing order of key): the voting members. Every
/// refusal comes before anything changes (`build_vote` and `validate_vote` only read),
/// and the packets' signing and encoding cannot fail.
#[verifier::external_body]
fn brb_request_membership(s: &mut BrbState, a: &ActorId) -> (r: Option<Vec<Packet>>)
    ensures
        opt_packets_view(r) == brb_join_out(*old(s), a@),
        *final(s) == brb_join_next(*old(s), a@),
        !valid_public_key(a@) ==> r is None && *final(s) == *old(s),
        r is None ==> *final(s) == *old(s),
        r matches Some(v) ==> dests(packets_view(v@)) == brb_voting(*old(s)) && brb_voting(
            *old(s),
        ).contains(brb_identity(*old(s))),
        brb_identity(*final(s)) == brb_identity(*old(s)),
        brb_values(*final(s)) == brb_values(*old(s)),
        r matches Some(v) ==> all_from(v@, brb_identity(*old(s))),
{
    let out = s.inner.request_membership(Actor(PublicKey::from_bytes(&a.key).ok()?)).ok()?;
    out.iter().map(|p| Some(Packet {
        source: ActorId { key: p.source.0.to_bytes() },
        dest: ActorId { key: p.dest.0.to_bytes() },
        body: bincode::serialize(p).ok()?,
    })).collect()
}

/// `DeterministicBRB::kill_peer` for the actor with key `a`: the vote packets to send;
/// `None` when the key is invalid (nothing is then done), the proposal is refused or a
/// packet cannot be encoded. The packets are signed as the instance itself; the
/// replicated set is not touched. As for `request_membership`, the proposal is a vote
/// that only a member may cast, sent to each voting member once, in increasing order of
/// key; a refusal changes nothing, and signing and encoding cannot fail.
#[verifier::external_body]
fn brb_kill_peer(s: &mut BrbState, a: &ActorId) -> (r: Option<Vec<Packet>>)
    ensures
        opt_packets_view(r) == brb_leave_out(*old(s), a@),
        *final(s) == brb_leave_next(*old(s), a@),
        !valid_public_key(a@) ==> r is None && *final(s) == *old(s),
        r is None ==> *final(s) == *old(s),
        r matches Some(v) ==> dests(packets_view(v@)) == brb_voting(*old(s)) && brb_voting(
            *old(s),
        ).contains(brb_identity(*old(s))),
        brb_identity(*final(s)) == brb_identity(*old(s)),
        brb_values(*final(s)) == brb_values(*old(s)),
        r matches Some(v) ==> all_from(v@, brb_identity(*old(s))),
{
    let out = s.inner.kill_peer(Actor(PublicKey::from_bytes(&a.key).ok()?)).ok()?;
    out.iter().map(|p| Some(Packet {
        source: ActorId { key: p.source.0.to_bytes() },
        dest: ActorId { key: p.dest.0.to_bytes() },
        body: bincode::serialize(p).ok()?,
    })).collect()
}

/// `DeterministicBRB::anti_entropy` towards the actor with key `a`: the request
/// packet, from the instance and addressed to `a` (BRB's `send` sets the source to
/// itself and the destination it is given); `None` exactly when the key is invalid:
/// signing (deterministic ed25519 with a short context) and the bincode encoding of
/// an anti-entropy payload and packet cannot fail.
#[verifier::external_body]
fn brb_anti_entropy(s: &BrbState, a: &ActorId) -> (r: Option<Packet>)
    ensures
        r is Some <==> valid_public_key(a@),
        match r {
            Some(p) => brb_anti_entropy_out(*s, a@) == Some(p@),
            None => brb_anti_entropy_out(*s, a@) is None,
        },
        r matches Some(p) ==> p.dest@ == a@ && p.source@ == brb_identity(*s),
{
    let p = s.inner.anti_entropy(Actor(PublicKey::from_bytes(&a.key).ok()?)).ok()?;
    Some(Packet {
        source: ActorId { key: p.source.0.to_bytes() },
        dest: ActorId { key: p.dest.0.to_bytes() },
        body: bincode::serialize(&p).ok()?,
    })
}

/// `BRBOrswot::add`: the operation that adds `v` to the set (not yet applied).
#[verifier::external_body]
fn brb_add_op(s: &BrbState, v: u64) -> (r: DataOp)
    ensures
        r == brb_add_op_of(*s, v),
{
    s.inner.dt.add(v)
}

/// `BRBOrswot::rm`: the operation that removes `v` from the set (not yet applied).
#[verifier::external_body]
fn brb_rm_op(s: &BrbState, v: u64) -> (r: DataOp)
    ensures
        r == brb_rm_op_of(*s, v),
{
    s.inner.dt.rm(v)
}

/// `DeterministicBRB::exec_op`: starts agreement on `op`; the packets to send to other
/// members, or `None` when BRB refuses or a packet cannot be encoded. It handles the
/// packets for itself at once and returns the others (those whose destination is not
/// itself), all signed as itself; only BRB operations are handled, so the membership
/// (its generation and voting members) is not touched. It broadcasts a validation
/// request to each voting member (`peers`, a `BTreeSet`: once each, in increasing
/// order of key) and keeps those not for itself, in that order. Handling its own
/// request adds only a signed validation for itself; that one signature is a
/// supermajority only when it is the sole member, and the proof of agreement then goes
/// to itself alone, whose handling answers only itself. So the packets returned are the
/// requests to the voting members other than itself. When it is not a voting member
/// and `peers` reports members, nothing is handled locally and nothing can fail (only
/// signing). Every refusal comes before anything changes (`peers`, signing, then the
/// validation of its own request, after which its later local steps cannot fail), and
/// encoding cannot fail.
#[verifier::external_body]
fn brb_exec_op(s: &mut BrbState, op: DataOp) -> (r: Option<Vec<Packet>>)
    ensures
        opt_packets_view(r) == brb_exec_out(*old(s), op),
        *final(s) == brb_exec_next(*old(s), op),
        r is None ==> *final(s) == *old(s),
        r matches Some(v) ==> dests(packets_view(v@)) == others(
            brb_voting(*old(s)),
            brb_identity(*old(s)),
        ),
        brb_voting(*old(s)).len() > 0 && !brb_voting(*old(s)).contains(brb_identity(*old(s)))
            ==> r is Some,
        brb_identity(*final(s)) == brb_identity(*old(s)),
        brb_generation(*final(s)) == brb_generation(*old(s)),
        brb_voting(*final(s)) == brb_voting(*old(s)),
        r matches Some(v) ==> all_from(v@, brb_identity(*old(s))) && none_to(
            v@,
            brb_identity(*old(s)),
        ),
{
    let out = s.inner.exec_op(op).ok()?;
    out.iter().map(|p| Some(Packet {
        source: ActorId { key: p.source.0.to_bytes() },
        dest: ActorId { key: p.dest.0.to_bytes() },
        body: bincode::serialize(p).ok()?,
    })).collect()
}

/// `DeterministicBRB::handle_packet` on the packet that `p.body` encodes: the packets
/// to send in reply, all signed as the instance itself, or `None` when the body does
/// not decode, BRB refuses the packet, or a reply cannot be encoded. The replies to an
/// anti-entropy request all go to its source; to a validation request, one signed
/// validation to its source; to a proof of agreement, one delivery notice to the
/// operation's author; to a delivery notice, none; to a signed validation, none or,
/// when it completes a supermajority, a proof of agreement to each member of the
/// operation's generation and to itself (a `BTreeSet`, once each in increasing order);
/// to a membership vote, none or this instance's vote cast to each member of the
/// current generation, which handling the vote has not changed (the voting members).
#[verifier::external_body]
fn brb_handle_packet(s: &mut BrbState, p: &Packet) -> (r: Option<Vec<Packet>>)
    ensures
        opt_packets_view(r) == brb_handle_out(*old(s), p.body@),
        *final(s) == brb_handle_next(*old(s), p.body@),
        brb_identity(*final(s)) == brb_identity(*old(s)),
        r matches Some(v) ==> all_from(v@, brb_identity(*old(s))),
        r matches Some(v) ==> reply_shape(
            dests(packets_view(v@)),
            brb_voting(*old(s)),
            brb_identity(*old(s)),
        ),
{
    let out = s.inner.handle_packet(bincode::deserialize(&p.body).ok()?).ok()?;
    out.iter().map(|q| Some(Packet {
        source: ActorId { key: q.source.0.to_bytes() },
        dest: ActorId { key: q.dest.0.to_bytes() },
        body: bincode::serialize(q).ok()?,
    })).collect()
}

/// `BRBOrswot::read`: the values in the replicated set. They come from a `HashSet`,
/// so none occurs twice; their order is the set's and carries no meaning.
#[verifier::external_body]
fn brb_read(s: &BrbState) -> (r: Vec<u64>)
    ensures
        r@.no_duplicates(),
        r@.to_set() == brb_values(*s),
{
    s.inner.dt.read().into_iter().collect()
}

/// The packets of a BRB answer: those it holds, or none when BRB refused.
pub fn packets_or_nothing(outcome: Option<Vec<Packet>>) -> (r: Vec<Packet>)
    ensures
        r@ == (match outcome {
            Some(v) => v@,
            None => Seq::<Packet>::empty(),
        }),
{
    match outcome {
        Some(packets) => packets,
        None => Vec::new(),
    }
}

/// A BRB node: its BRB instance.
pub struct BrbNode {
    state: BrbState,
}

impl BrbNode {
    /// This node's identity.
    pub closed spec fn actor_id(&self) -> Seq<u8> {
        brb_identity(self.state)
    }

    /// The values in this node's replicated set.
    pub closed spec fn values(&self) -> Set<u64> {
        brb_values(self.state)
    }

    /// The voting members this node reports, in increasing order.
    pub closed spec fn voting(&self) -> Seq<Seq<u8>> {
        brb_voting(self.state)
    }

    /// This node's membership generation.
    pub closed spec fn generation(&self) -> nat {
        brb_generation(self.state)
    }

    /// The node after trusting the actor with key `key`.
    pub closed spec fn after_trust(&self, key: Seq<u8>) -> BrbNode {
        BrbNode { state: brb_trust_next(self.state, key) }
    }

    /// The node after untrusting the actor with key `key`.
    pub closed spec fn after_untrust(&self, key: Seq<u8>) -> BrbNode {
        BrbNode { state: brb_untrust_next(self.state, key) }
    }

    /// The vote packets of a proposal that `key` join.
    pub closed spec fn join_answer(&self, key: Seq<u8>) -> Seq<PacketView> {
        answer_packets(brb_join_out(self.state, key))
    }

    /// The node after proposing that `key` join.
    pub closed spec fn after_join(&self, key: Seq<u8>) -> BrbNode {
        BrbNode { state: brb_join_next(self.state, key) }
    }

    /// The vote packets of a proposal that `key` leave.
    pub closed spec fn leave_answer(&self, key: Seq<u8>) -> Seq<PacketView> {
        answer_packets(brb_leave_out(self.state, key))
    }

    /// The node after proposing that `key` leave.
    pub closed spec fn after_leave(&self, key: Seq<u8>) -> BrbNode {
        BrbNode { state: brb_leave_next(self.state, key) }
    }

    /// The anti-entropy request towards `key`.
    pub closed spec fn anti_entropy_answer(&self, key: Seq<u8>) -> Option<PacketView> {
        brb_anti_entropy_out(self.state, key)
    }

    /// The packets of starting agreement on `op`.
    pub closed spec fn exec_answer(&self, op: DataOp) -> Seq<PacketView> {
        answer_packets(brb_exec_out(self.state, op))
    }

    /// The node after starting agreement on `op`.
    pub closed spec fn after_exec(&self, op: DataOp) -> BrbNode {
        BrbNode { state: brb_exec_next(self.state, op) }
    }

    /// The packets of starting agreement on adding `v`.
    pub closed spec fn add_answer(&self, v: u64) -> Seq<PacketView> {
        self.exec_answer(brb_add_op_of(self.state, v))
    }

    /// The node after starting agreement on adding `v`.
    pub closed spec fn after_add(&self, v: u64) -> BrbNode {
        self.after_exec(brb_add_op_of(self.state, v))
    }

    /// The packets of starting agreement on removing `v`.
    pub closed spec fn rm_answer(&self, v: u64) -> Seq<PacketView> {
        self.exec_answer(brb_rm_op_of(self.state, v))
    }

    /// The node after starting agreement on removing `v`.
    pub closed spec fn after_rm(&self, v: u64) -> BrbNode {
        self.after_exec(brb_rm_op_of(self.state, v))
    }

    /// The reply packets to the packet encoded by `body`.
    pub closed spec fn apply_answer(&self, body: Seq<u8>) -> Seq<PacketView> {
        answer_packets(brb_handle_out(self.state, body))
    }

    /// The node after handling the packet encoded by `body`.
    pub closed spec fn after_apply(&self, body: Seq<u8>) -> BrbNode {
        BrbNode { state: brb_handle_next(self.state, body) }
    }

    /// What trusting `key` does to a node, as far as it is stated: identity, values and
    /// generation stay; an invalid key changes nothing; the voting members gain at most
    /// the key and lose none, and at generation 0 the key joins them; untrusting the key
    /// afterwards gives the node that untrusting it at first would, whose members are
    /// the old ones less at most the key.
    pub open spec fn trusted(before: BrbNode, after: BrbNode, key: Seq<u8>) -> bool {
        &&& after.actor_id() == before.actor_id()
        &&& after.values() == before.values()
        &&& after.generation() == before.generation()
        &&& (!valid_public_key(key) ==> after == before)
        &&& (valid_public_key(key) ==> after == before.after_trust(key))
        &&& (valid_public_key(key) && before.generation() == 0 ==> after.voting().to_set()
            == before.voting().to_set().insert(key))
        &&& before.voting().to_set().subset_of(after.voting().to_set())
        &&& after.voting().to_set().subset_of(before.voting().to_set().insert(key))
        &&& (valid_public_key(key) ==> after.after_untrust(key) == before.after_untrust(key))
        &&& (valid_public_key(key) ==> before.voting().to_set().remove(key).subset_of(
            before.after_untrust(key).voting().to_set(),
        ))
        &&& (valid_public_key(key) ==> before.after_untrust(key).voting().to_set().subset_of(
            before.voting().to_set(),
        ))
    }

    /// What untrusting `key` does to a node, as far as it is stated: identity, values
    /// and generation stay; an invalid key changes nothing; the voting members lose at
    /// most the key and gain none, and at generation 0 the key leaves them; trusting the
    /// key afterwards gives the node that trusting it at first would, whose members are
    /// the old ones with at most the key added.
    pub open spec fn untrusted(before: BrbNode, after: BrbNode, key: Seq<u8>) -> bool {
        &&& after.actor_id() == before.actor_id()
        &&& after.values() == before.values()
        &&& after.generation() == before.generation()
        &&& (!valid_public_key(key) ==> after == before)
        &&& (valid_public_key(key) ==> after == before.after_untrust(key))
        &&& (valid_public_key(key) && before.generation() == 0 ==> after.voting().to_set()
            == before.voting().to_set().remove(key))
        &&& before.voting().to_set().remove(key).subset_of(after.voting().to_set())
        &&& after.voting().to_set().subset_of(before.voting().to_set())
        &&& (valid_public_key(key) ==> after.after_trust(key) == before.after_trust(key))
        &&& (valid_public_key(key) ==> before.voting().to_set().subset_of(
            before.after_trust(key).voting().to_set(),
        ))
        &&& (valid_public_key(key) ==> before.after_trust(key).voting().to_set().subset_of(
            before.voting().to_set().insert(key),
        ))
    }

    /// A node with a newly generated identity, a valid public key, alone at generation
    /// 0, with no voting member and an empty set of values.
    pub fn new() -> (r: BrbNode)
        ensures
            valid_public_key(r.actor_id()),
            r.generation() == 0,
            r.voting() == Seq::<Seq<u8>>::empty(),
            r.values() == Set::<u64>::empty(),
    {
        BrbNode { state: brb_new() }
    }

    /// This node's identity.
    pub fn actor(&self) -> (r: ActorId)
        ensures
            r@ == self.actor_id(),
            valid_public_key(r@),
    {
        brb_actor(&self.state)
    }

    /// Starts agreement on `op`: BRB's packets for other members, all from this node,
    /// none if BRB refuses it. The membership is not touched.
    pub fn exec_op(&mut self, op: DataOp) -> (r: Vec<Packet>)
        ensures
            *final(self) == old(self).after_exec(op),
            packets_view(r@) == old(self).exec_answer(op),
            final(self).actor_id() == old(self).actor_id(),
            final(self).generation() == old(self).generation(),
            final(self).voting() == old(self).voting(),
            all_from(r@, old(self).actor_id()),
            none_to(r@, old(self).actor_id()),
            dests(packets_view(r@)) == others(old(self).voting(), old(self).actor_id()) || (
            r@.len() == 0 && *final(self) == *old(self)),
            old(self).voting().len() > 0 && !old(self).voting().contains(old(self).actor_id())
                ==> dests(packets_view(r@)) == old(self).voting(),
    {
        let out = brb_exec_op(&mut self.state, op);
        let r = packets_or_nothing(out);
        assert(packets_view(r@) =~= answer_packets(opt_packets_view(out)));
        proof {
            if old(self).voting().len() > 0 && !old(self).voting().contains(old(self).actor_id()) {
                lemma_others_without_me(old(self).voting(), old(self).actor_id());
            }
        }
        r
    }

    /// Starts agreement on adding `v` to the set: BRB's packets for other members, all
    /// from this node. The membership is not touched.
    pub fn add(&mut self, v: u64) -> (r: Vec<Packet>)
        ensures
            *final(self) == old(self).after_add(v),
            packets_view(r@) == old(self).add_answer(v),
            final(self).actor_id() == old(self).actor_id(),
            final(self).generation() == old(self).generation(),
            final(self).voting() == old(self).voting(),
            all_from(r@, old(self).actor_id()),
            none_to(r@, old(self).actor_id()),
            dests(packets_view(r@)) == others(old(self).voting(), old(self).actor_id()) || (
            r@.len() == 0 && *final(self) == *old(self)),
            old(self).voting().len() > 0 && !old(self).voting().contains(old(self).actor_id())
                ==> dests(packets_view(r@)) == old(self).voting(),
    {
        let op = brb_add_op(&self.state, v);
        self.exec_op(op)
    }

    /// Starts agreement on removing `v` from the set: BRB's packets for other members,
    /// all from this node. The membership is not touched.
    pub fn rm(&mut self, v: u64) -> (r: Vec<Packet>)
        ensures
            *final(self) == old(self).after_rm(v),
            packets_view(r@) == old(self).rm_answer(v),
            final(self).actor_id() == old(self).actor_id(),
            final(self).generation() == old(self).generation(),
            final(self).voting() == old(self).voting(),
            all_from(r@, old(self).actor_id()),
            none_to(r@, old(self).actor_id()),
            dests(packets_view(r@)) == others(old(self).voting(), old(self).actor_id()) || (
            r@.len() == 0 && *final(self) == *old(self)),
            old(self).voting().len() > 0 && !old(self).voting().contains(old(self).actor_id())
                ==> dests(packets_view(r@)) == old(self).voting(),
    {
        let op = brb_rm_op(&self.state, v);
        self.exec_op(op)
    }

    /// The voting members, in increasing order; none if they cannot be read.
    pub fn peers(&self) -> (r: Vec<ActorId>)
        ensures
            keys_ascending(ids_view(r@)),
            ids_view(r@) == self.voting(),
    {
        match brb_peers(&self.state) {
            Some(v) => v,
            None => {
                let v: Vec<ActorId> = Vec::new();
                assert(ids_view(v@) =~= seq![]);
                v
            },
        }
    }

    /// Makes `peer` a voting member locally, without a vote: at generation 0 it joins
    /// the voting members. A key that is not a valid public key changes nothing.
    /// Trusting again changes nothing.
    pub fn trust_peer(&mut self, peer: &ActorId)
        ensures
            Self::trusted(*old(self), *final(self), peer@),
            valid_public_key(peer@) ==> final(self).after_trust(peer@) == *final(self),
            valid_public_key(peer@) ==> old(self).after_untrust(peer@).after_trust(peer@)
                == *final(self),
    {
        brb_force_join(&mut self.state, peer);
    }

    /// Removes `peer` from the voting members locally, without a vote: at generation 0
    /// it leaves them. A key that is not a valid public key changes nothing. Untrusting
    /// undoes a trust: it leaves the node as untrusting alone would, trusted or not.
    pub fn untrust_peer(&mut self, peer: &ActorId)
        ensures
            Self::untrusted(*old(self), *final(self), peer@),
            valid_public_key(peer@) ==> final(self).after_untrust(peer@) == *final(self),
            valid_public_key(peer@) ==> old(self).after_trust(peer@).after_untrust(peer@)
                == *final(self),
    {
        brb_force_leave(&mut self.state, peer);
    }

    /// Proposes that `actor` join the voting members: BRB's vote packets, all from this
    /// node, none if the proposal is refused or `actor` is not a valid key (nothing is
    /// then done). The set of values is not touched.
    pub fn request_join(&mut self, actor: &ActorId) -> (r: Vec<Packet>)
        ensures
            *final(self) == old(self).after_join(actor@),
            packets_view(r@) == old(self).join_answer(actor@),
            final(self).actor_id() == old(self).actor_id(),
            final(self).values() == old(self).values(),
            all_from(r@, old(self).actor_id()),
            !valid_public_key(actor@) ==> r@.len() == 0 && *final(self) == *old(self),
            (dests(packets_view(r@)) == old(self).voting() && old(self).voting().contains(
                old(self).actor_id(),
            )) || (r@.len() == 0 && *final(self) == *old(self)),
    {
        let out = brb_request_membership(&mut self.state, actor);
        let r = packets_or_nothing(out);
        assert(packets_view(r@) =~= answer_packets(opt_packets_view(out)));
        r
    }

    /// Proposes that `actor` leave the voting members: BRB's vote packets, all from this
    /// node, none if the proposal is refused or `actor` is not a valid key (nothing is
    /// then done). The set of values is not touched.
    pub fn request_leave(&mut self, actor: &ActorId) -> (r: Vec<Packet>)
        ensures
            *final(self) == old(self).after_leave(actor@),
            packets_view(r@) == old(self).leave_answer(actor@),
            final(self).actor_id() == old(self).actor_id(),
            final(self).values() == old(self).values(),
            all_from(r@, old(self).actor_id()),
            !valid_public_key(actor@) ==> r@.len() == 0 && *final(self) == *old(self),
            (dests(packets_view(r@)) == old(self).voting() && old(self).voting().contains(
                old(self).actor_id(),
            )) || (r@.len() == 0 && *final(self) == *old(self)),
    {
        let out = brb_kill_peer(&mut self.state, actor);
        let r = packets_or_nothing(out);
        assert(packets_view(r@) =~= answer_packets(opt_packets_view(out)));
        r
    }

    /// Asks `peer` for the history this node has not seen: BRB's request packet, from
    /// this node to `peer`, made exactly when `peer` is a valid key. The node is not
    /// changed.
    pub fn anti_entropy(&mut self, peer: &ActorId) -> (r: Option<Packet>)
        ensures
            *final(self) == *old(self),
            r is Some <==> valid_public_key(peer@),
            match r {
                Some(p) => old(self).anti_entropy_answer(peer@) == Some(p@),
                None => old(self).anti_entropy_answer(peer@) is None,
            },
            r matches Some(p) ==> p.dest@ == peer@ && p.source@ == old(self).actor_id(),
    {
        brb_anti_entropy(&self.state, peer)
    }

    /// Handles a packet received from the network: BRB's reply packets, all from this
    /// node, none if the packet is refused.
    pub fn apply(&mut self, packet: &Packet) -> (r: Vec<Packet>)
        ensures
            *final(self) == old(self).after_apply(packet.body@),
            packets_view(r@) == old(self).apply_answer(packet.body@),
            final(self).actor_id() == old(self).actor_id(),
            all_from(r@, old(self).actor_id()),
            reply_shape(dests(packets_view(r@)), old(self).voting(), old(self).actor_id()),
    {
        let out = brb_handle_packet(&mut self.state, packet);
        let r = packets_or_nothing(out);
        assert(packets_view(r@) =~= answer_packets(opt_packets_view(out)));
        r
    }

    /// The values in the replicated set, each once.
    pub fn read(&self) -> (r: Vec<u64>)
        ensures
            r@.no_duplicates(),
            r@.to_set() == self.values(),
    {
        brb_read(&self.state)
    }
}

} // verus!
