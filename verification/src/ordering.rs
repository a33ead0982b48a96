//! The lexicographic order of byte strings, which is the order of `str` and `[u8]`.
use vstd::prelude::*;
use vstd::relations::total_ordering;

verus! {

/// `a <= b` in the lexicographic order of byte strings (a proper prefix comes first).
pub open spec fn bytes_le(a: Seq<u8>, b: Seq<u8>) -> bool
    decreases a.len(),
{
    if a.len() == 0 {
        true
    } else if b.len() == 0 {
        false
    } else if a[0] != b[0] {
        a[0] < b[0]
    } else {
        bytes_le(a.drop_first(), b.drop_first())
    }
}

/// The order is reflexive.
pub proof fn lemma_bytes_le_reflexive(a: Seq<u8>)
    ensures
        bytes_le(a, a),
    decreases a.len(),
{
    if a.len() > 0 {
        lemma_bytes_le_reflexive(a.drop_first());
    }
}

/// The order is antisymmetric.
pub proof fn lemma_bytes_le_antisymmetric(a: Seq<u8>, b: Seq<u8>)
    requires
        bytes_le(a, b),
        bytes_le(b, a),
    ensures
        a == b,
    decreases a.len(),
{
    if a.len() > 0 && b.len() > 0 {
        lemma_bytes_le_antisymmetric(a.drop_first(), b.drop_first());
        assert(a =~= seq![a[0]] + a.drop_first());
        assert(b =~= seq![b[0]] + b.drop_first());
    }
}

/// The order is transitive.
pub proof fn lemma_bytes_le_transitive(a: Seq<u8>, b: Seq<u8>, c: Seq<u8>)
    requires
        bytes_le(a, b),
        bytes_le(b, c),
    ensures
        bytes_le(a, c),
    decreases a.len(),
{
    if a.len() > 0 && b.len() > 0 && c.len() > 0 && a[0] == b[0] && b[0] == c[0] {
        lemma_bytes_le_transitive(a.drop_first(), b.drop_first(), c.drop_first());
    }
}

/// Any two byte strings are ordered one way or the other.
pub proof fn lemma_bytes_le_total(a: Seq<u8>, b: Seq<u8>)
    ensures
        bytes_le(a, b) || bytes_le(b, a),
    decreases a.len(),
{
    if a.len() > 0 && b.len() > 0 && a[0] == b[0] {
        lemma_bytes_le_total(a.drop_first(), b.drop_first());
    }
}

/// Whether `a <= b` in the lexicographic order of byte strings, as `<=` on `[u8]` answers.
pub fn bytes_le_exec(a: &[u8], b: &[u8]) -> (le: bool)
    ensures
        le == bytes_le(a@, b@),
{
    let mut i: usize = 0;
    proof {
        assert(a@.skip(0) =~= a@);
        assert(b@.skip(0) =~= b@);
    }
    while i < a.len() && i < b.len() && a[i] == b[i]
        invariant
            i <= a@.len(),
            i <= b@.len(),
            bytes_le(a@, b@) == bytes_le(a@.skip(i as int), b@.skip(i as int)),
        decreases a@.len() - i,
    {
        proof {
            assert(a@.skip(i as int).drop_first() =~= a@.skip(i + 1));
            assert(b@.skip(i as int).drop_first() =~= b@.skip(i + 1));
        }
        i = i + 1;
    }
    if i == a.len() {
        true
    } else if i == b.len() {
        false
    } else {
        a[i] < b[i]
    }
}

/// A pair of byte strings, ordered by the first and then by the second.
pub open spec fn pair_le(x: (Seq<u8>, Seq<u8>), y: (Seq<u8>, Seq<u8>)) -> bool {
    if x.0 == y.0 {
        bytes_le(x.1, y.1)
    } else {
        bytes_le(x.0, y.0)
    }
}

/// The pair order as a relation.
pub open spec fn pair_order() -> spec_fn((Seq<u8>, Seq<u8>), (Seq<u8>, Seq<u8>)) -> bool {
    |x: (Seq<u8>, Seq<u8>), y: (Seq<u8>, Seq<u8>)| pair_le(x, y)
}

/// The pair order is a total order.
pub proof fn lemma_pair_order_total()
    ensures
        total_ordering(pair_order()),
{
    assert forall|x: (Seq<u8>, Seq<u8>)| #[trigger] pair_order()(x, x) by {
        lemma_bytes_le_reflexive(x.1);
    }
    assert forall|x: (Seq<u8>, Seq<u8>), y: (Seq<u8>, Seq<u8>)|
        #[trigger] pair_order()(x, y) && #[trigger] pair_order()(y, x) implies x == y by {
        if x.0 == y.0 {
            lemma_bytes_le_antisymmetric(x.1, y.1);
        } else {
            lemma_bytes_le_antisymmetric(x.0, y.0);
        }
    }
    assert forall|x: (Seq<u8>, Seq<u8>), y: (Seq<u8>, Seq<u8>), z: (Seq<u8>, Seq<u8>)|
        #[trigger] pair_order()(x, y) && #[trigger] pair_order()(y, z) implies pair_order()(
        x,
        z,
    ) by {
        if x.0 == y.0 && y.0 == z.0 {
            lemma_bytes_le_transitive(x.1, y.1, z.1);
        } else if x.0 == y.0 {
        } else if y.0 == z.0 {
        } else {
            lemma_bytes_le_transitive(x.0, y.0, z.0);
            if x.0 == z.0 {
                lemma_bytes_le_antisymmetric(x.0, y.0);
            }
        }
    }
    assert forall|x: (Seq<u8>, Seq<u8>), y: (Seq<u8>, Seq<u8>)|
        #[trigger] pair_order()(x, y) || #[trigger] pair_order()(y, x) by {
        lemma_bytes_le_total(x.0, y.0);
        lemma_bytes_le_total(x.1, y.1);
    }
}

/// Whether `(a0, a1) <= (b0, b1)` in the pair order, as `<=` on `(&[u8], &[u8])` answers.
pub fn pair_le_exec(a0: &[u8], a1: &[u8], b0: &[u8], b1: &[u8]) -> (le: bool)
    ensures
        le == pair_le((a0@, a1@), (b0@, b1@)),
{
    let forward = bytes_le_exec(a0, b0);
    let backward = bytes_le_exec(b0, a0);
    proof {
        lemma_bytes_le_reflexive(a0@);
        if forward && backward {
            lemma_bytes_le_antisymmetric(a0@, b0@);
        }
    }
    if forward && backward {
        bytes_le_exec(a1, b1)
    } else {
        forward
    }
}

} // verus!
