//! The order in which names are listed: byte by byte over their UTF-8
//! encoding, a proper prefix before what it is a prefix of.

use vstd::prelude::*;
use vstd::utf8::{encode_utf8, encode_utf8_decode_utf8};

verus! {

/// `a` and `b` agree on their first `k` bytes.
pub open spec fn same_prefix(a: Seq<u8>, b: Seq<u8>, k: int) -> bool {
    &&& 0 <= k <= a.len()
    &&& k <= b.len()
    &&& forall|j: int| 0 <= j < k ==> a[j] == b[j]
}

/// `a` and `b` part ways at byte `k`, and `a` is the smaller one there.
pub open spec fn parts_below_at(a: Seq<u8>, b: Seq<u8>, k: int) -> bool {
    &&& same_prefix(a, b, k)
    &&& k < b.len()
    &&& (k == a.len() || a[k] < b[k])
}

/// `a` sorts strictly before `b`.
pub open spec fn bytes_before(a: Seq<u8>, b: Seq<u8>) -> bool {
    exists|k: int| parts_below_at(a, b, k)
}

/// The name `a` is listed strictly before the name `b`.
pub open spec fn name_before(a: Seq<char>, b: Seq<char>) -> bool {
    bytes_before(encode_utf8(a), encode_utf8(b))
}

/// How two names stand to each other.
#[derive(Debug, PartialEq, Eq, Clone, Copy)]
pub enum Position {
    Before,
    Same,
    After,
}

/// Nothing sorts before itself.
pub proof fn lemma_before_irreflexive(a: Seq<u8>)
    ensures
        !bytes_before(a, a),
{
}

/// The order is transitive.
pub proof fn lemma_before_transitive(a: Seq<u8>, b: Seq<u8>, c: Seq<u8>)
    requires
        bytes_before(a, b),
        bytes_before(b, c),
    ensures
        bytes_before(a, c),
{
    let k1 = choose|k: int| parts_below_at(a, b, k);
    let k2 = choose|k: int| parts_below_at(b, c, k);
    if k1 <= k2 {
        assert(parts_below_at(a, c, k1));
    } else {
        assert(parts_below_at(a, c, k2));
    }
}

/// Names are ordered strictly: none before itself, and the order is transitive.
pub proof fn lemma_name_order(a: Seq<char>, b: Seq<char>, c: Seq<char>)
    ensures
        !name_before(a, a),
        name_before(a, b) && name_before(b, c) ==> name_before(a, c),
        name_before(a, b) ==> a != b && !name_before(b, a),
{
    lemma_before_irreflexive(encode_utf8(a));
    if name_before(a, b) && name_before(b, c) {
        lemma_before_transitive(encode_utf8(a), encode_utf8(b), encode_utf8(c));
    }
    if name_before(a, b) && name_before(b, a) {
        lemma_before_transitive(encode_utf8(a), encode_utf8(b), encode_utf8(a));
    }
}

/// Where `a` stands relative to `b` in the listing order.
pub fn position(a: &str, b: &str) -> (p: Position)
    ensures
        p == Position::Before <==> name_before(a@, b@),
        p == Position::Same <==> a@ == b@,
        p == Position::After <==> name_before(b@, a@),
{
    let x = a.as_bytes();
    let y = b.as_bytes();
    proof {
        lemma_name_order(a@, b@, a@);
        encode_utf8_decode_utf8(a@);
        encode_utf8_decode_utf8(b@);
    }
    let mut i: usize = 0;
    while i < x.len() && i < y.len()
        invariant
            x@ == encode_utf8(a@),
            y@ == encode_utf8(b@),
            same_prefix(x@, y@, i as int),
        decreases x.len() - i,
    {
        if x[i] < y[i] {
            assert(parts_below_at(x@, y@, i as int));
            return Position::Before;
        }
        if x[i] > y[i] {
            assert(same_prefix(y@, x@, i as int));
            assert(parts_below_at(y@, x@, i as int));
            return Position::After;
        }
        i += 1;
    }
    if i < y.len() {
        assert(parts_below_at(x@, y@, i as int));
        Position::Before
    } else if i < x.len() {
        assert(same_prefix(y@, x@, i as int));
        assert(parts_below_at(y@, x@, i as int));
        Position::After
    } else {
        assert(x@ =~= y@);
        Position::Same
    }
}

/// Whether two names are the same, character for character.
pub fn same_name(a: &str, b: &str) -> (same: bool)
    ensures
        same == (a@ == b@),
{
    match position(a, b) {
        Position::Same => true,
        _ => false,
    }
}

} // verus!
