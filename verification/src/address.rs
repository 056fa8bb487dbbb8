//! Identities: 32 bytes that name a user, a slot or a program.

use vstd::prelude::*;

verus! {

/// The identity of a user, of a storage slot or of a program.
#[derive(Clone, Copy, Debug)]
pub struct Address {
    pub bytes: [u8; 32],
}

/// How one identity stands to another in the order of the record format.
#[derive(Clone, Copy, Debug, PartialEq, Eq, Structural)]
pub enum Rank {
    Before,
    Same,
    After,
}

impl View for Address {
    type V = Seq<u8>;

    open spec fn view(&self) -> Seq<u8> {
        self.bytes@
    }
}

/// `k` is the first place at which `a` and `b` differ.
pub open spec fn first_difference(a: Seq<u8>, b: Seq<u8>, k: int) -> bool {
    &&& 0 <= k < a.len()
    &&& k < b.len()
    &&& a[k] != b[k]
    &&& forall|j: int| 0 <= j < k ==> a[j] == b[j]
}

/// The strict order of identities: byte by byte, the first difference decides.
pub open spec fn precedes(a: Seq<u8>, b: Seq<u8>) -> bool {
    exists|k: int| #[trigger] first_difference(a, b, k) && a[k] < b[k]
}

/// No identity precedes one that precedes it, nor itself.
pub proof fn lemma_precedes_asymmetric(a: Seq<u8>, b: Seq<u8>)
    requires
        precedes(a, b),
    ensures
        !precedes(b, a),
        a != b,
{
    let k = choose|k: int| #[trigger] first_difference(a, b, k) && a[k] < b[k];
    if precedes(b, a) {
        let m = choose|m: int| #[trigger] first_difference(b, a, m) && b[m] < a[m];
        if k < m {
            assert(b[k] == a[k]);
        } else if m < k {
            assert(a[m] == b[m]);
        }
    }
}

/// The order is transitive.
pub proof fn lemma_precedes_transitive(a: Seq<u8>, b: Seq<u8>, c: Seq<u8>)
    requires
        precedes(a, b),
        precedes(b, c),
    ensures
        precedes(a, c),
{
    let k = choose|k: int| #[trigger] first_difference(a, b, k) && a[k] < b[k];
    let m = choose|m: int| #[trigger] first_difference(b, c, m) && b[m] < c[m];
    let n = if k <= m { k } else { m };
    assert forall|j: int| 0 <= j < n implies a[j] == c[j] by {
        assert(a[j] == b[j]);
        assert(b[j] == c[j]);
    }
    if k < m {
        assert(b[k] == c[k]);
    } else if m < k {
        assert(a[m] == b[m]);
    }
    assert(first_difference(a, c, n) && a[n] < c[n]);
}

impl Address {
    /// The identity with the given bytes.
    pub fn new(bytes: [u8; 32]) -> (address: Address)
        ensures
            address@ == bytes@,
            address.bytes == bytes,
    {
        Address { bytes }
    }

    /// The bytes of the identity.
    pub fn to_bytes(&self) -> (bytes: [u8; 32])
        ensures
            bytes@ == self@,
    {
        self.bytes
    }

    /// Where `self` stands with respect to `other`.
    pub fn rank(&self, other: &Address) -> (rank: Rank)
        ensures
            rank == Rank::Before <==> precedes(self@, other@),
            rank == Rank::Same <==> self@ == other@,
            rank == Rank::After <==> precedes(other@, self@),
    {
        let mut i: usize = 0;
        while i < 32
            invariant
                0 <= i <= 32,
                forall|j: int| 0 <= j < i ==> self.bytes@[j] == other.bytes@[j],
            decreases 32 - i,
        {
            if self.bytes[i] < other.bytes[i] {
                proof {
                    assert(first_difference(self@, other@, i as int));
                    lemma_precedes_asymmetric(self@, other@);
                }
                return Rank::Before;
            }
            if self.bytes[i] > other.bytes[i] {
                proof {
                    assert(first_difference(other@, self@, i as int));
                    lemma_precedes_asymmetric(other@, self@);
                }
                return Rank::After;
            }
            i += 1;
        }
        proof {
            assert(self@ =~= other@);
            if precedes(self@, other@) {
                lemma_precedes_asymmetric(self@, other@);
            }
        }
        Rank::Same
    }

    /// Whether the two identities are the same.
    pub fn same_as(&self, other: &Address) -> (same: bool)
        ensures
            same == (self@ == other@),
    {
        self.rank(other) == Rank::Same
    }
}

} // verus!
