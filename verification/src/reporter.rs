//! The order of reporter ids: that of their UTF-8 bytes, which is also the
//! order of `String`.

use vstd::prelude::*;
use vstd::string::StringSliceAdditionalSpecFns;
use vstd::utf8::encode_utf8;

verus! {

/// How the first of two ids stands to the second.
#[derive(Clone, Copy, Debug, PartialEq, Eq, Structural)]
pub enum IdOrder {
    Before,
    Same,
    After,
}

/// Lexicographic order on byte sequences: `a` and `b` agree on their first
/// `k` bytes, and there `a` ends while `b` goes on, or `a` has the smaller byte.
pub open spec fn bytes_before(a: Seq<u8>, b: Seq<u8>) -> bool {
    exists|k: int| diverge_at(a, b, k)
}

/// `a` and `b` agree below index `k`, and at `k` the sequence `a` is the lesser.
pub open spec fn diverge_at(a: Seq<u8>, b: Seq<u8>, k: int) -> bool {
    &&& 0 <= k <= a.len()
    &&& k < b.len()
    &&& forall|j: int| 0 <= j < k ==> a[j] == b[j]
    &&& (k < a.len() ==> a[k] < b[k])
}

/// The order of reporter ids.
pub open spec fn id_before(a: Seq<char>, b: Seq<char>) -> bool {
    bytes_before(encode_utf8(a), encode_utf8(b))
}

/// No byte sequence comes before itself.
pub proof fn lemma_bytes_irreflexive(a: Seq<u8>)
    ensures
        !bytes_before(a, a),
{
}

/// The byte order is transitive.
pub proof fn lemma_bytes_transitive(a: Seq<u8>, b: Seq<u8>, c: Seq<u8>)
    requires
        bytes_before(a, b),
        bytes_before(b, c),
    ensures
        bytes_before(a, c),
{
    let k1 = choose|k: int| diverge_at(a, b, k);
    let k2 = choose|k: int| diverge_at(b, c, k);
    let k = if k1 <= k2 { k1 } else { k2 };
    assert(diverge_at(a, c, k));
}

/// Of two byte sequences that differ, one comes before the other; and never both.
pub proof fn lemma_bytes_total(a: Seq<u8>, b: Seq<u8>)
    ensures
        bytes_before(a, b) || a == b || bytes_before(b, a),
        !(bytes_before(a, b) && bytes_before(b, a)),
{
    if bytes_before(a, b) && bytes_before(b, a) {
        lemma_bytes_transitive(a, b, a);
    }
    if a != b {
        lemma_first_difference(a, b, 0);
    }
}

/// Two sequences that agree below `from` and are not equal diverge somewhere.
proof fn lemma_first_difference(a: Seq<u8>, b: Seq<u8>, from: int)
    requires
        0 <= from <= a.len(),
        from <= b.len(),
        forall|j: int| 0 <= j < from ==> a[j] == b[j],
        a != b,
    ensures
        bytes_before(a, b) || bytes_before(b, a),
    decreases a.len() - from,
{
    if from == a.len() {
        if from == b.len() {
            assert(a =~= b);
        } else {
            assert(diverge_at(a, b, from));
        }
    } else if from == b.len() {
        assert(diverge_at(b, a, from));
    } else if a[from] < b[from] {
        assert(diverge_at(a, b, from));
    } else if b[from] < a[from] {
        assert(diverge_at(b, a, from));
    } else {
        lemma_first_difference(a, b, from + 1);
    }
}

/// The order of ids is a strict total order: irreflexive, transitive, and
/// any two distinct ids are ordered one way and not the other.
pub proof fn lemma_id_order(a: Seq<char>, b: Seq<char>, c: Seq<char>)
    ensures
        !id_before(a, a),
        id_before(a, b) && id_before(b, c) ==> id_before(a, c),
        id_before(a, b) || a == b || id_before(b, a),
        !(id_before(a, b) && id_before(b, a)),
{
    let (x, y, z) = (encode_utf8(a), encode_utf8(b), encode_utf8(c));
    lemma_bytes_irreflexive(x);
    if bytes_before(x, y) && bytes_before(y, z) {
        lemma_bytes_transitive(x, y, z);
    }
    lemma_bytes_total(x, y);
    if x == y {
        vstd::utf8::encode_utf8_decode_utf8(a);
        vstd::utf8::encode_utf8_decode_utf8(b);
    }
}

/// Compares two ids by their bytes.
pub fn compare_ids(a: &String, b: &String) -> (r: IdOrder)
    ensures
        r == IdOrder::Before <==> id_before(a@, b@),
        r == IdOrder::Same <==> a@ == b@,
        r == IdOrder::After <==> id_before(b@, a@),
{
    let x = a.as_str().as_bytes();
    let y = b.as_str().as_bytes();
    let mut i: usize = 0;
    while i < x.len() && i < y.len()
        invariant
            0 <= i <= x.len(),
            i <= y.len(),
            forall|j: int| 0 <= j < i ==> x@[j] == y@[j],
            x@ == encode_utf8(a@),
            y@ == encode_utf8(b@),
        decreases x.len() - i,
    {
        if x[i] < y[i] {
            proof {
                lemma_id_order(a@, b@, a@);
            }
            return IdOrder::Before;
        }
        if y[i] < x[i] {
            proof {
                lemma_id_order(a@, b@, a@);
            }
            return IdOrder::After;
        }
        i += 1;
    }
    proof {
        lemma_id_order(a@, b@, a@);
    }
    if i < y.len() {
        IdOrder::Before
    } else if i < x.len() {
        IdOrder::After
    } else {
        proof {
            vstd::utf8::encode_utf8_decode_utf8(a@);
            vstd::utf8::encode_utf8_decode_utf8(b@);
        }
        IdOrder::Same
    }
}

} // verus!
