//! The order in which candidate names are listed.
//!
//! Names are ordered as their UTF-8 encodings are, byte by byte: the first
//! byte in which two encodings differ decides, and an encoding that is a
//! proper prefix of another comes first.

use vstd::prelude::*;
use vstd::string::StringSliceAdditionalSpecFns;
use vstd::utf8::{encode_utf8, encode_utf8_decode_utf8};

verus! {

/// Whether `a` and `b` agree on their first `k` bytes and `a` comes first
/// by what follows: `a` ends there and `b` goes on, or `a` has the smaller
/// byte at `k`.
pub open spec fn parts_at(a: Seq<u8>, b: Seq<u8>, k: int) -> bool {
    &&& 0 <= k <= a.len()
    &&& k < b.len()
    &&& forall|j: int| #![trigger a[j]] #![trigger b[j]] 0 <= j < k ==> a[j] == b[j]
    &&& (k < a.len() ==> a[k] < b[k])
}

/// Whether `a` comes strictly before `b` in lexicographic order.
pub open spec fn bytes_before(a: Seq<u8>, b: Seq<u8>) -> bool {
    exists|k: int| parts_at(a, b, k)
}

/// Whether the name `a` is listed strictly before the name `b`.
pub open spec fn name_before(a: Seq<char>, b: Seq<char>) -> bool {
    bytes_before(encode_utf8(a), encode_utf8(b))
}

/// How two names stand to each other.
#[derive(Debug, Clone, Copy, PartialEq, Eq, Structural)]
pub enum NameOrder {
    /// The first is listed before the second.
    Before,
    /// They are one name.
    Same,
    /// The first is listed after the second.
    After,
}

/// How the names `a` and `b` stand to each other, as a specification.
pub open spec fn name_order(a: Seq<char>, b: Seq<char>) -> NameOrder {
    if a == b {
        NameOrder::Same
    } else if name_before(a, b) {
        NameOrder::Before
    } else {
        NameOrder::After
    }
}

/// No byte sequence comes before itself.
pub proof fn lemma_bytes_before_irreflexive(a: Seq<u8>)
    ensures
        !bytes_before(a, a),
{
}

/// If `a` comes before `b`, then `b` does not come before `a`.
pub proof fn lemma_bytes_before_asymmetric(a: Seq<u8>, b: Seq<u8>)
    ensures
        bytes_before(a, b) ==> !bytes_before(b, a),
{
    if bytes_before(a, b) && bytes_before(b, a) {
        let k = choose|k: int| parts_at(a, b, k);
        let m = choose|m: int| parts_at(b, a, m);
        if k < m {
            assert(b[k] == a[k]);
        } else if m < k {
            assert(a[m] == b[m]);
        }
    }
}

/// If `a` comes before `b` and `b` before `c`, then `a` comes before `c`.
pub proof fn lemma_bytes_before_transitive(a: Seq<u8>, b: Seq<u8>, c: Seq<u8>)
    ensures
        bytes_before(a, b) && bytes_before(b, c) ==> bytes_before(a, c),
{
    if bytes_before(a, b) && bytes_before(b, c) {
        let k = choose|k: int| parts_at(a, b, k);
        let m = choose|m: int| parts_at(b, c, m);
        let first = if k <= m {
            k
        } else {
            m
        };
        assert forall|j: int| 0 <= j < first implies a[j] == c[j] by {
            assert(a[j] == b[j]);
            assert(b[j] == c[j]);
        }
        if k < m {
            assert(b[k] == c[k]);
        } else if m < k {
            assert(a[m] == b[m]);
        }
        assert(parts_at(a, c, first));
    }
}

/// The length of the longest common prefix of `a` and `b`.
spec fn common_prefix(a: Seq<u8>, b: Seq<u8>) -> int
    decreases a.len(),
{
    if a.len() > 0 && b.len() > 0 && a[0] == b[0] {
        1 + common_prefix(a.drop_first(), b.drop_first())
    } else {
        0
    }
}

proof fn lemma_common_prefix(a: Seq<u8>, b: Seq<u8>)
    ensures
        0 <= common_prefix(a, b) <= a.len(),
        common_prefix(a, b) <= b.len(),
        forall|j: int|
            #![trigger a[j]]
            #![trigger b[j]]
            0 <= j < common_prefix(a, b) ==> a[j] == b[j],
        common_prefix(a, b) < a.len() && common_prefix(a, b) < b.len() ==> a[common_prefix(a, b)]
            != b[common_prefix(a, b)],
    decreases a.len(),
{
    if a.len() > 0 && b.len() > 0 && a[0] == b[0] {
        let x = a.drop_first();
        let y = b.drop_first();
        lemma_common_prefix(x, y);
        let n = common_prefix(x, y);
        assert forall|j: int| 0 <= j < 1 + n implies a[j] == b[j] by {
            if j > 0 {
                assert(a[j] == x[j - 1]);
                assert(b[j] == y[j - 1]);
            }
        }
        if n < x.len() && n < y.len() {
            assert(a[1 + n] == x[n]);
            assert(b[1 + n] == y[n]);
        }
    }
}

/// Two byte sequences are equal, or one comes before the other.
pub proof fn lemma_bytes_before_total(a: Seq<u8>, b: Seq<u8>)
    ensures
        a == b || bytes_before(a, b) || bytes_before(b, a),
{
    lemma_common_prefix(a, b);
    let k = common_prefix(a, b);
    if k == a.len() && k == b.len() {
        assert(a =~= b);
    } else if k == a.len() {
        assert(parts_at(a, b, k));
    } else if k == b.len() {
        assert(parts_at(b, a, k));
    } else if a[k] < b[k] {
        assert(parts_at(a, b, k));
    } else {
        assert(parts_at(b, a, k));
    }
}

/// Names with one encoding are one name.
pub proof fn lemma_encoding_tells_names_apart(a: Seq<char>, b: Seq<char>)
    ensures
        encode_utf8(a) == encode_utf8(b) ==> a == b,
{
    encode_utf8_decode_utf8(a);
    encode_utf8_decode_utf8(b);
}

/// The listing order is a strict total order on names: of two names exactly
/// one comes first unless they are equal, and the order is transitive.
pub proof fn lemma_name_order_is_strict_and_total(a: Seq<char>, b: Seq<char>, c: Seq<char>)
    ensures
        !name_before(a, a),
        name_before(a, b) ==> !name_before(b, a),
        name_before(a, b) && name_before(b, c) ==> name_before(a, c),
        a == b || name_before(a, b) || name_before(b, a),
{
    lemma_bytes_before_irreflexive(encode_utf8(a));
    lemma_bytes_before_asymmetric(encode_utf8(a), encode_utf8(b));
    lemma_bytes_before_transitive(encode_utf8(a), encode_utf8(b), encode_utf8(c));
    lemma_bytes_before_total(encode_utf8(a), encode_utf8(b));
    lemma_encoding_tells_names_apart(a, b);
}

/// Compares two names in listing order.
pub fn compare_names(a: &str, b: &str) -> (order: NameOrder)
    ensures
        order == name_order(a@, b@),
{
    let x = a.as_bytes();
    let y = b.as_bytes();
    proof {
        lemma_name_order_is_strict_and_total(a@, b@, a@);
    }
    let mut i: usize = 0;
    while i < x.len() && i < y.len()
        invariant
            x@ == encode_utf8(a@),
            y@ == encode_utf8(b@),
            i <= x.len(),
            i <= y.len(),
            forall|j: int| #![trigger x@[j]] #![trigger y@[j]] 0 <= j < i ==> x@[j] == y@[j],
        decreases x.len() - i,
    {
        if x[i] < y[i] {
            assert(parts_at(x@, y@, i as int));
            return NameOrder::Before;
        }
        if x[i] > y[i] {
            assert(parts_at(y@, x@, i as int));
            return NameOrder::After;
        }
        i = i + 1;
    }
    if x.len() < y.len() {
        assert(parts_at(x@, y@, i as int));
        NameOrder::Before
    } else if x.len() > y.len() {
        assert(parts_at(y@, x@, i as int));
        NameOrder::After
    } else {
        assert(x@ =~= y@);
        proof {
            lemma_encoding_tells_names_apart(a@, b@);
        }
        NameOrder::Same
    }
}

} // verus!
