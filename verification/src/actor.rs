//! Identities of the members of a group: a 32-byte public key, its short label and
//! its order.
use vstd::prelude::*;
use crate::text::{hex_byte, push_hex_byte, text_of};

verus! {

/// The identity of a node: the 32 bytes of its ed25519 public key.
#[derive(Clone, Copy, Debug)]
pub struct ActorId {
    pub key: [u8; 32],
}

impl View for ActorId {
    type V = Seq<u8>;

    open spec fn view(&self) -> Seq<u8> {
        self.key@
    }
}

/// How an actor is shown: `i:` and the lower-case hex of the first three key bytes.
pub open spec fn actor_label(key: Seq<u8>) -> Seq<char> {
    seq!['i', ':'] + hex_byte(key[0]) + hex_byte(key[1]) + hex_byte(key[2])
}

/// `a` comes strictly before `b` in the byte-wise (lexicographic) order of keys.
pub open spec fn key_lt(a: Seq<u8>, b: Seq<u8>) -> bool {
    exists|i: int| #![trigger a[i], b[i]] key_differs_first_at(a, b, i) && a[i] < b[i]
}

/// `i` is a position of both keys where they differ, and they agree before it.
pub open spec fn key_differs_first_at(a: Seq<u8>, b: Seq<u8>, i: int) -> bool {
    &&& 0 <= i < a.len()
    &&& i < b.len()
    &&& a[i] != b[i]
    &&& forall|j: int| 0 <= j < i ==> a[j] == b[j]
}

/// Keys, listed in strictly increasing order.
pub open spec fn keys_ascending(keys: Seq<Seq<u8>>) -> bool {
    forall|i: int, j: int| 0 <= i < j < keys.len() ==> key_lt(#[trigger] keys[i], #[trigger] keys[j])
}

/// Two equally long keys that differ have a first position where they differ.
pub proof fn lemma_first_difference(a: Seq<u8>, b: Seq<u8>, k: int)
    requires
        a.len() == b.len(),
        0 <= k <= a.len(),
        forall|j: int| 0 <= j < k ==> a[j] == b[j],
        a != b,
    ensures
        exists|i: int| #![trigger a[i], b[i]] key_differs_first_at(a, b, i),
    decreases a.len() - k,
{
    if k == a.len() {
        assert(a =~= b);
    } else if a[k] != b[k] {
        assert(key_differs_first_at(a, b, k));
    } else {
        lemma_first_difference(a, b, k + 1);
    }
}

/// The key order is total on keys of one length.
pub proof fn lemma_key_total(a: Seq<u8>, b: Seq<u8>)
    requires
        a.len() == b.len(),
    ensures
        a == b || key_lt(a, b) || key_lt(b, a),
{
    if a != b {
        lemma_first_difference(a, b, 0);
        let i: int = choose|i: int| #![trigger a[i], b[i]] key_differs_first_at(a, b, i);
        if a[i] < b[i] {
            assert(key_lt(a, b));
        } else {
            assert(key_differs_first_at(b, a, i));
            assert(key_lt(b, a));
        }
    }
}

/// A key never comes before itself, and two keys are not each before the other.
pub proof fn lemma_key_asymmetric(a: Seq<u8>, b: Seq<u8>)
    ensures
        !(key_lt(a, b) && key_lt(b, a)),
        !key_lt(a, a),
{
    if key_lt(a, b) && key_lt(b, a) {
        let i: int = choose|i: int| #![trigger a[i], b[i]] key_differs_first_at(a, b, i) && a[i] < b[i];
        let k: int = choose|k: int| #![trigger b[k], a[k]] key_differs_first_at(b, a, k) && b[k] < a[k];
        if i < k {
            assert(b[i] == a[i]);
        } else if k < i {
            assert(a[k] == b[k]);
        }
    }
}

/// The key order is transitive.
pub proof fn lemma_key_transitive(a: Seq<u8>, b: Seq<u8>, c: Seq<u8>)
    requires
        key_lt(a, b),
        key_lt(b, c),
    ensures
        key_lt(a, c),
{
    let i: int = choose|i: int| #![trigger a[i], b[i]] key_differs_first_at(a, b, i) && a[i] < b[i];
    let k: int = choose|k: int| #![trigger b[k], c[k]] key_differs_first_at(b, c, k) && b[k] < c[k];
    if i <= k {
        assert(key_differs_first_at(a, c, i));
    } else {
        assert(key_differs_first_at(a, c, k));
    }
}

impl ActorId {
    /// Whether `self` and `other` are the same identity.
    pub fn same(&self, other: &ActorId) -> (r: bool)
        ensures
            r == (self@ == other@),
    {
        let mut i: usize = 0;
        while i < 32
            invariant
                i <= 32,
                self@.len() == 32,
                other@.len() == 32,
                forall|j: int| 0 <= j < i ==> self@[j] == other@[j],
            decreases 32 - i,
        {
            if self.key[i] != other.key[i] {
                return false;
            }
            i = i + 1;
        }
        assert(self@ =~= other@);
        true
    }

    /// Whether `self` comes strictly before `other` in the order of keys.
    pub fn precedes(&self, other: &ActorId) -> (r: bool)
        ensures
            r == key_lt(self@, other@),
    {
        let ghost a = self@;
        let ghost b = other@;
        let mut i: usize = 0;
        while i < 32
            invariant
                i <= 32,
                a == self@,
                b == other@,
                a.len() == 32,
                b.len() == 32,
                forall|j: int| 0 <= j < i ==> a[j] == b[j],
            decreases 32 - i,
        {
            if self.key[i] != other.key[i] {
                assert(key_differs_first_at(a, b, i as int));
                if self.key[i] < other.key[i] {
                    assert(key_lt(a, b));
                    return true;
                } else {
                    proof {
                        assert(key_differs_first_at(b, a, i as int));
                        lemma_key_asymmetric(a, b);
                    }
                    return false;
                }
            }
            i = i + 1;
        }
        assert(a =~= b);
        proof {
            lemma_key_asymmetric(a, b);
        }
        false
    }

    /// The label of this identity, as characters.
    pub fn label_chars(&self) -> (v: Vec<char>)
        ensures
            v@ == actor_label(self@),
    {
        let mut v: Vec<char> = Vec::new();
        v.push('i');
        v.push(':');
        push_hex_byte(&mut v, self.key[0]);
        push_hex_byte(&mut v, self.key[1]);
        push_hex_byte(&mut v, self.key[2]);
        assert(v@ =~= actor_label(self@));
        v
    }

    /// The label of this identity, such as `i:877dca`.
    pub fn label(&self) -> (s: String)
        ensures
            s@ == actor_label(self@),
    {
        text_of(&self.label_chars())
    }
}

impl PartialEq for ActorId {
    fn eq(&self, other: &Self) -> (r: bool) {
        self.same(other)
    }
}

impl vstd::std_specs::cmp::PartialEqSpecImpl for ActorId {
    open spec fn obeys_eq_spec() -> bool {
        true
    }

    open spec fn eq_spec(&self, other: &Self) -> bool {
        self@ == other@
    }
}

impl Eq for ActorId {
}

} // verus!
