//! The order of strings: byte by byte over their UTF-8 encoding, the shorter
//! of two strings first where one is a prefix of the other.

use vstd::prelude::*;
use vstd::utf8::*;

verus! {

/// Whether `a` comes no later than `b`, comparing from position `from` on.
/// Positions before `from` are taken to agree.
pub open spec fn bytes_le_from(a: Seq<u8>, b: Seq<u8>, from: int) -> bool
    decreases a.len() - from,
{
    if from < 0 || from >= a.len() {
        true
    } else if from >= b.len() {
        false
    } else if a[from] != b[from] {
        a[from] < b[from]
    } else {
        bytes_le_from(a, b, from + 1)
    }
}

/// Lexicographic order on byte strings: `a` comes no later than `b`.
pub open spec fn bytes_le(a: Seq<u8>, b: Seq<u8>) -> bool {
    bytes_le_from(a, b, 0)
}

/// The key by which a string is ordered: its UTF-8 encoding.
pub open spec fn key_of(s: Seq<char>) -> Seq<u8> {
    encode_utf8(s)
}

/// Compares two byte strings lexicographically.
pub fn slice_le(a: &[u8], b: &[u8]) -> (le: bool)
    ensures
        le == bytes_le(a@, b@),
{
    let mut i: usize = 0;
    while i < a.len() && i < b.len()
        invariant
            i <= a.len(),
            i <= b.len(),
            bytes_le(a@, b@) == bytes_le_from(a@, b@, i as int),
        decreases a.len() - i,
    {
        if a[i] != b[i] {
            return a[i] < b[i];
        }
        i += 1;
    }
    a.len() <= b.len()
}

/// Whether string `a` comes no later than string `b`.
pub fn str_le(a: &str, b: &str) -> (le: bool)
    ensures
        le == bytes_le(key_of(a@), key_of(b@)),
{
    slice_le(a.as_bytes(), b.as_bytes())
}

/// Whether two strings hold the same characters.
pub fn str_eq(a: &str, b: &str) -> (eq: bool)
    ensures
        eq == (a@ == b@),
{
    let x = a.as_bytes();
    let y = b.as_bytes();
    if x.len() != y.len() {
        return false;
    }
    let mut i: usize = 0;
    while i < x.len()
        invariant
            x@.len() == y@.len(),
            x@ == key_of(a@),
            y@ == key_of(b@),
            i <= x@.len(),
            forall|k: int| 0 <= k < i ==> x@[k] == y@[k],
        decreases x.len() - i,
    {
        if x[i] != y[i] {
            return false;
        }
        i += 1;
    }
    proof {
        assert(x@ =~= y@);
        lemma_key_of_injective(a@, b@);
    }
    true
}

/// `a` and `b` agree before position `k`, and at `k` either `a` ends or `a`
/// has the smaller byte.
pub open spec fn precedes_at(a: Seq<u8>, b: Seq<u8>, k: int) -> bool {
    &&& 0 <= k <= a.len()
    &&& k <= b.len()
    &&& forall|j: int| 0 <= j < k ==> a[j] == b[j]
    &&& k == a.len() || (k < b.len() && a[k] < b[k])
}

/// The order is the lexicographic one: `a` comes no later than `b` exactly
/// when `a` is a prefix of `b`, or has the smaller byte at the first position
/// at which the two differ.
pub proof fn lemma_bytes_le_is_lexicographic(a: Seq<u8>, b: Seq<u8>)
    ensures
        bytes_le(a, b) <==> exists|k: int| precedes_at(a, b, k),
{
    lemma_le_from_is_lexicographic(a, b, 0);
}

proof fn lemma_le_from_is_lexicographic(a: Seq<u8>, b: Seq<u8>, from: int)
    requires
        0 <= from <= a.len(),
        from <= b.len(),
        forall|j: int| 0 <= j < from ==> a[j] == b[j],
    ensures
        bytes_le_from(a, b, from) <==> exists|k: int| from <= k && precedes_at(a, b, k),
    decreases a.len() - from,
{
    if from == a.len() {
        assert(precedes_at(a, b, from));
    } else if from == b.len() {
        assert forall|k: int| from <= k implies !precedes_at(a, b, k) by {}
    } else if a[from] != b[from] {
        if a[from] < b[from] {
            assert(precedes_at(a, b, from));
        } else {
            assert forall|k: int| from <= k implies !precedes_at(a, b, k) by {}
        }
    } else {
        lemma_le_from_is_lexicographic(a, b, from + 1);
        assert(!precedes_at(a, b, from));
        if bytes_le_from(a, b, from + 1) {
            let k = choose|k: int| from + 1 <= k && precedes_at(a, b, k);
            assert(from <= k && precedes_at(a, b, k));
        } else {
            assert forall|k: int| from <= k implies !precedes_at(a, b, k) by {
                if k > from {
                    assert(from + 1 <= k);
                }
            }
        }
    }
}

/// Every byte string comes no later than itself.
pub proof fn lemma_bytes_le_reflexive(a: Seq<u8>)
    ensures
        bytes_le(a, a),
{
    lemma_le_from_reflexive(a, 0);
}

proof fn lemma_le_from_reflexive(a: Seq<u8>, from: int)
    ensures
        bytes_le_from(a, a, from),
    decreases a.len() - from,
{
    if 0 <= from < a.len() {
        lemma_le_from_reflexive(a, from + 1);
    }
}

/// Of two byte strings, one comes no later than the other.
pub proof fn lemma_bytes_le_total(a: Seq<u8>, b: Seq<u8>)
    ensures
        bytes_le(a, b) || bytes_le(b, a),
{
    lemma_le_from_total(a, b, 0);
}

proof fn lemma_le_from_total(a: Seq<u8>, b: Seq<u8>, from: int)
    ensures
        bytes_le_from(a, b, from) || bytes_le_from(b, a, from),
    decreases a.len() - from,
{
    if 0 <= from < a.len() && from < b.len() && a[from] == b[from] {
        lemma_le_from_total(a, b, from + 1);
    }
}

/// The order is transitive.
pub proof fn lemma_bytes_le_transitive(a: Seq<u8>, b: Seq<u8>, c: Seq<u8>)
    requires
        bytes_le(a, b),
        bytes_le(b, c),
    ensures
        bytes_le(a, c),
{
    lemma_le_from_transitive(a, b, c, 0);
}

proof fn lemma_le_from_transitive(a: Seq<u8>, b: Seq<u8>, c: Seq<u8>, from: int)
    requires
        0 <= from,
        bytes_le_from(a, b, from),
        bytes_le_from(b, c, from),
    ensures
        bytes_le_from(a, c, from),
    decreases a.len() - from,
{
    if from < a.len() && a[from] == b[from] && b[from] == c[from] {
        lemma_le_from_transitive(a, b, c, from + 1);
    }
}

/// Two byte strings that each come no later than the other are the same
/// string: the order tells any two different strings apart.
pub proof fn lemma_bytes_le_antisymmetric(a: Seq<u8>, b: Seq<u8>)
    requires
        bytes_le(a, b),
        bytes_le(b, a),
    ensures
        a == b,
{
    lemma_le_from_antisymmetric(a, b, 0);
}

proof fn lemma_le_from_antisymmetric(a: Seq<u8>, b: Seq<u8>, from: int)
    requires
        0 <= from <= a.len(),
        from <= b.len(),
        forall|k: int| 0 <= k < from ==> a[k] == b[k],
        bytes_le_from(a, b, from),
        bytes_le_from(b, a, from),
    ensures
        a == b,
    decreases a.len() - from,
{
    if from < a.len() {
        lemma_le_from_antisymmetric(a, b, from + 1);
    } else {
        assert(a =~= b);
    }
}

/// Two strings with the same key are the same string.
pub proof fn lemma_key_of_injective(s: Seq<char>, t: Seq<char>)
    requires
        key_of(s) == key_of(t),
    ensures
        s == t,
{
    encode_utf8_decode_utf8(s);
    encode_utf8_decode_utf8(t);
}

} // verus!
