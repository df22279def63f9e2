//! Identity keys of nodes and the XOR metric between them.

use vstd::prelude::*;

verus! {

/// Number of bytes in a public key.
pub const PUBLICKEYBYTES: usize = 32;

/// The long-term public key that identifies a node.
#[derive(Clone, Copy, Debug, PartialEq, Eq)]
pub struct PublicKey(pub [u8; 32]);

impl View for PublicKey {
    type V = Seq<u8>;

    open spec fn view(&self) -> Seq<u8> {
        self.0@
    }
}

/// The number that `s` spells as big-endian digits to the base 256.
pub open spec fn be_value(s: Seq<u8>) -> nat
    decreases s.len(),
{
    if s.len() == 0 {
        0
    } else {
        be_value(s.drop_last()) * 256 + s.last() as nat
    }
}

/// Bytewise XOR of `a` with `b`, over the length of `a`.
pub open spec fn xor_bytes(a: Seq<u8>, b: Seq<u8>) -> Seq<u8> {
    Seq::new(a.len(), |i: int| a[i] ^ b[i])
}

/// XOR distance between two keys: their bytewise XOR read as a big-endian
/// unsigned integer.
pub open spec fn distance(a: Seq<u8>, b: Seq<u8>) -> nat {
    be_value(xor_bytes(a, b))
}

/// Of two byte strings of one length, the one with the smaller byte at the
/// first place where they differ spells the smaller number.
pub proof fn lemma_be_value_first_difference(x: Seq<u8>, y: Seq<u8>, i: int)
    requires
        x.len() == y.len(),
        0 <= i < x.len(),
        forall|j: int| 0 <= j < i ==> x[j] == y[j],
        x[i] < y[i],
    ensures
        be_value(x) < be_value(y),
    decreases x.len(),
{
    let xs = x.drop_last();
    let ys = y.drop_last();
    if i == x.len() - 1 {
        assert(xs =~= ys);
    } else {
        lemma_be_value_first_difference(xs, ys, i);
    }
}

/// Byte strings of one length that spell the same number are equal.
pub proof fn lemma_be_value_injective(x: Seq<u8>, y: Seq<u8>)
    requires
        x.len() == y.len(),
        be_value(x) == be_value(y),
    ensures
        x == y,
    decreases x.len(),
{
    if x.len() > 0 {
        lemma_be_value_injective(x.drop_last(), y.drop_last());
        assert(x =~= x.drop_last().push(x.last()));
        assert(y =~= y.drop_last().push(y.last()));
    } else {
        assert(x =~= y);
    }
}

/// Two keys are at the same distance from a third only if they are the same
/// key.
pub proof fn lemma_distance_injective(r: Seq<u8>, a: Seq<u8>, b: Seq<u8>)
    requires
        r.len() == a.len(),
        r.len() == b.len(),
        distance(r, a) == distance(r, b),
    ensures
        a == b,
{
    lemma_be_value_injective(xor_bytes(r, a), xor_bytes(r, b));
    assert forall|i: int| 0 <= i < a.len() implies a[i] == b[i] by {
        let x = r[i];
        let u = a[i];
        let v = b[i];
        assert(xor_bytes(r, a)[i] == xor_bytes(r, b)[i]);
        assert(x ^ u == x ^ v ==> u == v) by (bit_vector);
    }
    assert(a =~= b);
}

impl PublicKey {
    /// Whether `other` is the same key.
    pub fn same_as(&self, other: &PublicKey) -> (r: bool)
        ensures
            r == (self@ == other@),
            r == (*self == *other),
    {
        let mut i: usize = 0;
        while i < 32
            invariant
                i <= 32,
                forall|j: int| 0 <= j < i ==> self@[j] == other@[j],
            decreases 32 - i,
        {
            if self.0[i] != other.0[i] {
                return false;
            }
            i += 1;
        }
        proof {
            assert(self@ =~= other@);
            assert(self.0 == other.0);
        }
        true
    }

    /// Whether `a` is strictly closer to this key than `b` is, by XOR
    /// distance.
    pub fn is_closer(&self, a: &PublicKey, b: &PublicKey) -> (r: bool)
        ensures
            r == (distance(self@, a@) < distance(self@, b@)),
    {
        let ghost da = xor_bytes(self@, a@);
        let ghost db = xor_bytes(self@, b@);
        let mut i: usize = 0;
        while i < 32
            invariant
                i <= 32,
                da == xor_bytes(self@, a@),
                db == xor_bytes(self@, b@),
                forall|j: int| 0 <= j < i ==> da[j] == db[j],
            decreases 32 - i,
        {
            let xa: u8 = self.0[i] ^ a.0[i];
            let xb: u8 = self.0[i] ^ b.0[i];
            if xa != xb {
                proof {
                    assert(da[i as int] == xa);
                    assert(db[i as int] == xb);
                    if xa < xb {
                        lemma_be_value_first_difference(da, db, i as int);
                    } else {
                        lemma_be_value_first_difference(db, da, i as int);
                    }
                }
                return xa < xb;
            }
            i += 1;
        }
        proof {
            assert(da =~= db);
        }
        false
    }
}

} // verus!
